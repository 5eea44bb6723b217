//! The decoder: readers that take one item each from a [`ByteReader`], and
//! the entry points that decode a whole byte string.

use vstd::prelude::*;
use vstd::slice::{slice_subrange, slice_to_vec};

use crate::encoding::well_formed;
use crate::inflate::{gunzip, gzip_decompress, unzlib, zlib_decompress};
use crate::laws::lemma_decoded_is_well_formed;
use crate::parse_error::{ErrorModel, NbtParseError};
use crate::reader::{step_of, step_of_tags, step_of_view, ByteReader};
use crate::types::{models, NbtTag, TagModel};
use crate::wire::{
    after, be_value, byte_value, decode, int_at, lemma_payload_advances, lemma_tag_advances,
    long_at, read_byte, read_byte_array, read_compound, read_double, read_elements, read_float,
    read_int, read_int_array, read_list, read_long, read_long_array, read_named, read_payload,
    read_short, read_string, read_tag, read_u8, signed,
};

verus! {

/// Appending one byte to a big-endian byte string multiplies its number by
/// 256 and adds the byte.
proof fn lemma_be_value_step(s: Seq<u8>, k: int)
    requires
        0 <= k < s.len(),
    ensures
        be_value(s.take(k + 1)) == be_value(s.take(k)) * 256 + s[k],
{
    assert(s.take(k + 1).drop_last() == s.take(k));
}

/// The number that two bytes spell.
fn be_u16(b: &[u8]) -> (v: u16)
    requires
        b@.len() == 2,
    ensures
        v == be_value(b@),
{
    proof {
        lemma_be_value_step(b@, 0);
        lemma_be_value_step(b@, 1);
        assert(b@.take(2) == b@);
    }
    (b[0] as u16) * 256 + (b[1] as u16)
}

/// The number that four bytes spell.
fn be_u32(b: &[u8]) -> (v: u32)
    requires
        b@.len() == 4,
    ensures
        v == be_value(b@),
{
    proof {
        lemma_be_value_step(b@, 0);
        lemma_be_value_step(b@, 1);
        lemma_be_value_step(b@, 2);
        lemma_be_value_step(b@, 3);
        assert(b@.take(4) == b@);
    }
    (((b[0] as u32) * 256 + (b[1] as u32)) * 256 + (b[2] as u32)) * 256 + (b[3] as u32)
}

/// The number that eight bytes spell.
fn be_u64(b: &[u8]) -> (v: u64)
    requires
        b@.len() == 8,
    ensures
        v == be_value(b@),
{
    proof {
        lemma_be_value_step(b@, 4);
        lemma_be_value_step(b@, 5);
        lemma_be_value_step(b@, 6);
        lemma_be_value_step(b@, 7);
        assert(b@.take(8) == b@);
        assert(b@.take(4) == b@.subrange(0, 4));
        let low = b@.subrange(4, 8);
        lemma_be_value_step(low, 0);
        lemma_be_value_step(low, 1);
        lemma_be_value_step(low, 2);
        lemma_be_value_step(low, 3);
        assert(low.take(4) == low);
    }
    let high: u64 = be_u32(slice_subrange(b, 0, 4)) as u64;
    let low: u64 = be_u32(slice_subrange(b, 4, 8)) as u64;
    high * 0x1_0000_0000 + low
}

/// The signed integer with the bit pattern of `u`.
fn to_i8(u: u8) -> (v: i8)
    ensures
        v == signed(u as int, 0x100),
{
    if u < 0x80 {
        u as i8
    } else {
        ((u - 0x80) as i8) + i8::MIN
    }
}

/// The signed integer with the bit pattern of `u`.
fn to_i16(u: u16) -> (v: i16)
    ensures
        v == signed(u as int, 0x1_0000),
{
    if u < 0x8000 {
        u as i16
    } else {
        ((u - 0x8000) as i16) + i16::MIN
    }
}

/// The signed integer with the bit pattern of `u`.
fn to_i32(u: u32) -> (v: i32)
    ensures
        v == signed(u as int, 0x1_0000_0000),
{
    if u < 0x8000_0000 {
        u as i32
    } else {
        ((u - 0x8000_0000) as i32) + i32::MIN
    }
}

/// The signed integer with the bit pattern of `u`.
fn to_i64(u: u64) -> (v: i64)
    ensures
        v == signed(u as int, 0x1_0000_0000_0000_0000),
{
    if u < 0x8000_0000_0000_0000 {
        u as i64
    } else {
        ((u - 0x8000_0000_0000_0000) as i64) + i64::MIN
    }
}

/// Reads one byte as it stands.
pub fn next(reader: &mut ByteReader) -> (res: Result<u8, NbtParseError>)
    ensures
        final(reader).follows(old(reader)),
        read_u8(old(reader).bytes(), old(reader).pos()) == step_of(res, final(reader).pos()),
{
    let b = reader.take(1)?;
    Ok(b[0])
}

/// Reads one byte as a signed integer.
pub fn next_byte(reader: &mut ByteReader) -> (res: Result<i8, NbtParseError>)
    ensures
        final(reader).follows(old(reader)),
        read_byte(old(reader).bytes(), old(reader).pos()) == step_of(res, final(reader).pos()),
{
    let b = reader.take(1)?;
    Ok(to_i8(b[0]))
}

/// Reads two bytes as a big-endian signed integer.
pub fn next_short(reader: &mut ByteReader) -> (res: Result<i16, NbtParseError>)
    ensures
        final(reader).follows(old(reader)),
        read_short(old(reader).bytes(), old(reader).pos()) == step_of(res, final(reader).pos()),
{
    let b = reader.take(2)?;
    Ok(to_i16(be_u16(b)))
}

/// Reads four bytes as a big-endian signed integer.
pub fn next_int(reader: &mut ByteReader) -> (res: Result<i32, NbtParseError>)
    ensures
        final(reader).follows(old(reader)),
        read_int(old(reader).bytes(), old(reader).pos()) == step_of(res, final(reader).pos()),
{
    let b = reader.take(4)?;
    Ok(to_i32(be_u32(b)))
}

/// Reads eight bytes as a big-endian signed integer.
pub fn next_long(reader: &mut ByteReader) -> (res: Result<i64, NbtParseError>)
    ensures
        final(reader).follows(old(reader)),
        read_long(old(reader).bytes(), old(reader).pos()) == step_of(res, final(reader).pos()),
{
    let b = reader.take(8)?;
    Ok(to_i64(be_u64(b)))
}

/// Reads four bytes as the bit pattern of a big-endian 32-bit IEEE 754
/// number.
pub fn next_float(reader: &mut ByteReader) -> (res: Result<u32, NbtParseError>)
    ensures
        final(reader).follows(old(reader)),
        read_float(old(reader).bytes(), old(reader).pos()) == step_of(res, final(reader).pos()),
{
    let b = reader.take(4)?;
    Ok(be_u32(b))
}

/// Reads eight bytes as the bit pattern of a big-endian 64-bit IEEE 754
/// number.
pub fn next_double(reader: &mut ByteReader) -> (res: Result<u64, NbtParseError>)
    ensures
        final(reader).follows(old(reader)),
        read_double(old(reader).bytes(), old(reader).pos()) == step_of(res, final(reader).pos()),
{
    let b = reader.take(8)?;
    Ok(be_u64(b))
}

/// Reads an array of bytes: the count, then the bytes. A count of zero or
/// less gives the empty array.
pub fn next_byte_arr(reader: &mut ByteReader) -> (res: Result<Vec<i8>, NbtParseError>)
    ensures
        final(reader).follows(old(reader)),
        read_byte_array(old(reader).bytes(), old(reader).pos()) == step_of_view(
            res,
            final(reader).pos(),
        ),
{
    let size = next_int(reader)?;
    let mut arr: Vec<i8> = Vec::new();
    if size <= 0 {
        return Ok(arr);
    }
    let b = reader.take(size as usize)?;
    let mut i: usize = 0;
    while i < b.len()
        invariant
            i <= b@.len(),
            arr@ == Seq::new(i as nat, |j: int| byte_value(b@[j])),
        decreases b@.len() - i,
    {
        arr.push(to_i8(b[i]));
        i += 1;
    }
    Ok(arr)
}

/// Reads a text: the length in bytes, then the bytes, which must be valid
/// UTF-8. A length that the bytes left cannot meet is `EndOfData`, whatever
/// those bytes are.
pub fn next_string(reader: &mut ByteReader) -> (res: Result<String, NbtParseError>)
    ensures
        final(reader).follows(old(reader)),
        read_string(old(reader).bytes(), old(reader).pos()) == step_of_view(
            res,
            final(reader).pos(),
        ),
{
    let size = next_short(reader)?;
    if size < 0 {
        reader.skip_to_end();
        return Err(NbtParseError::EndOfData);
    }
    let b = reader.take(size as usize)?;
    match String::from_utf8(slice_to_vec(b)) {
        Ok(text) => Ok(text),
        Err(_) => Err(NbtParseError::StringUtf8Error),
    }
}

/// Reads an array of ints: the count, then the ints. A count of zero or
/// less gives the empty array.
pub fn next_int_arr(reader: &mut ByteReader) -> (res: Result<Vec<i32>, NbtParseError>)
    ensures
        final(reader).follows(old(reader)),
        read_int_array(old(reader).bytes(), old(reader).pos()) == step_of_view(
            res,
            final(reader).pos(),
        ),
{
    let size = next_int(reader)?;
    let ghost bytes = reader.bytes();
    let ghost start = reader.pos();
    let mut vec: Vec<i32> = Vec::new();
    let mut i: i32 = 0;
    while i < size
        invariant
            0 <= i,
            i == 0 || i <= size,
            reader.follows(old(reader)),
            reader.bytes() == bytes,
            reader.pos() == start + 4 * i,
            read_int(old(reader).bytes(), old(reader).pos()) == step_of(
                Ok::<i32, NbtParseError>(size),
                start,
            ),
            vec@ == Seq::new(i as nat, |j: int| int_at(bytes, start, j)),
        decreases size - i,
    {
        let item = next_int(reader)?;
        vec.push(item);
        i += 1;
    }
    Ok(vec)
}

/// Reads an array of longs: the count, then the longs. A count of zero or
/// less gives the empty array.
pub fn next_long_arr(reader: &mut ByteReader) -> (res: Result<Vec<i64>, NbtParseError>)
    ensures
        final(reader).follows(old(reader)),
        read_long_array(old(reader).bytes(), old(reader).pos()) == step_of_view(
            res,
            final(reader).pos(),
        ),
{
    let size = next_int(reader)?;
    let ghost bytes = reader.bytes();
    let ghost start = reader.pos();
    let mut vec: Vec<i64> = Vec::new();
    let mut i: i32 = 0;
    while i < size
        invariant
            0 <= i,
            i == 0 || i <= size,
            reader.follows(old(reader)),
            reader.bytes() == bytes,
            reader.pos() == start + 8 * i,
            read_int(old(reader).bytes(), old(reader).pos()) == step_of(
                Ok::<i32, NbtParseError>(size),
                start,
            ),
            vec@ == Seq::new(i as nat, |j: int| long_at(bytes, start, j)),
        decreases size - i,
    {
        let item = next_long(reader)?;
        vec.push(item);
        i += 1;
    }
    Ok(vec)
}

/// Reads one value of the type `tag_id` as a list element: a tag with the
/// empty name.
fn next_element(reader: &mut ByteReader, tag_id: i8) -> (res: Result<NbtTag, NbtParseError>)
    ensures
        final(reader).follows(old(reader)),
        read_payload(old(reader).bytes(), old(reader).pos(), tag_id, Seq::empty()) == step_of_view(
            res,
            final(reader).pos(),
        ),
    decreases old(reader).bytes().len() - old(reader).pos(), 2int,
{
    proof {
        use_type_invariant(&*reader);
    }
    match tag_id {
        1 => Ok(NbtTag::Byte(String::new(), next_byte(reader)?)),
        2 => Ok(NbtTag::Short(String::new(), next_short(reader)?)),
        3 => Ok(NbtTag::Int(String::new(), next_int(reader)?)),
        4 => Ok(NbtTag::Long(String::new(), next_long(reader)?)),
        5 => Ok(NbtTag::Float(String::new(), next_float(reader)?)),
        6 => Ok(NbtTag::Double(String::new(), next_double(reader)?)),
        7 => Ok(NbtTag::ByteArray(String::new(), next_byte_arr(reader)?)),
        8 => Ok(NbtTag::String(String::new(), next_string(reader)?)),
        9 => Ok(NbtTag::List(String::new(), next_list(reader)?)),
        10 => Ok(NbtTag::Compound(String::new(), next_compound(reader)?)),
        11 => Ok(NbtTag::IntArray(String::new(), next_int_arr(reader)?)),
        12 => Ok(NbtTag::LongArray(String::new(), next_long_arr(reader)?)),
        _ => Err(NbtParseError::UnknownNBT(tag_id)),
    }
}

/// Reads the elements of a list: the element type, the count, then that
/// many values of that type. A count of zero or less gives no element and
/// leaves the element type unexamined.
pub fn next_list(reader: &mut ByteReader) -> (res: Result<Vec<NbtTag>, NbtParseError>)
    ensures
        final(reader).follows(old(reader)),
        read_list(old(reader).bytes(), old(reader).pos()) == step_of_tags(
            res,
            final(reader).pos(),
        ),
    decreases old(reader).bytes().len() - old(reader).pos(), 1int,
{
    let tag_id = next_byte(reader)?;
    let size = next_int(reader)?;
    let ghost bytes = reader.bytes();
    let ghost start = reader.pos();
    let mut vec: Vec<NbtTag> = Vec::new();
    let mut i: i32 = 0;
    assert(models(vec@) + read_elements(bytes, start, tag_id, size as int).outcome->Ok_0
        == read_elements(bytes, start, tag_id, size as int).outcome->Ok_0);
    while i < size
        invariant
            i == 0 || i <= size,
            reader.follows(old(reader)),
            reader.bytes() == bytes,
            reader.pos() > old(reader).pos(),
            read_list(bytes, old(reader).pos()) == read_elements(bytes, start, tag_id, size as int),
            read_elements(bytes, start, tag_id, size as int) == after(
                models(vec@),
                read_elements(bytes, reader.pos(), tag_id, size - i),
            ),
        decreases size - i,
    {
        let ghost cur = reader.pos();
        let ghost done = models(vec@);
        match next_element(reader, tag_id) {
            Err(e) => {
                return Err(e);
            },
            Ok(item) => {
                proof {
                    lemma_payload_advances(bytes, cur, tag_id, Seq::empty());
                    let rest = read_elements(bytes, reader.pos(), tag_id, size - i - 1);
                    assert(done.push(item@) == models(vec@.push(item)));
                    if rest.outcome is Ok {
                        assert(done + (seq![item@] + rest.outcome->Ok_0) == done.push(item@)
                            + rest.outcome->Ok_0);
                    }
                }
                vec.push(item);
                i += 1;
            },
        }
    }
    assert(models(vec@) + Seq::<TagModel>::empty() == models(vec@));
    Ok(vec)
}

/// Reads the children of a compound: tags one after another up to the
/// `End` that closes them, which is read and left out.
pub fn next_compound(reader: &mut ByteReader) -> (res: Result<Vec<NbtTag>, NbtParseError>)
    ensures
        final(reader).follows(old(reader)),
        read_compound(old(reader).bytes(), old(reader).pos()) == step_of_tags(
            res,
            final(reader).pos(),
        ),
    decreases old(reader).bytes().len() - old(reader).pos(), 1int,
{
    proof {
        use_type_invariant(&*reader);
    }
    let ghost bytes = reader.bytes();
    let ghost start = reader.pos();
    let mut vec: Vec<NbtTag> = Vec::new();
    assert(read_compound(bytes, start).outcome is Ok ==> models(vec@) + read_compound(
        bytes,
        start,
    ).outcome->Ok_0 == read_compound(bytes, start).outcome->Ok_0);
    loop
        invariant
            reader.follows(old(reader)),
            reader.bytes() == bytes,
            old(reader).pos() == start,
            read_compound(bytes, start) == after(
                models(vec@),
                read_compound(bytes, reader.pos()),
            ),
        decreases bytes.len() - reader.pos(),
    {
        let ghost cur = reader.pos();
        let ghost done = models(vec@);
        match parse_next(reader) {
            Err(e) => {
                return Err(e);
            },
            Ok(NbtTag::End) => {
                assert(done + Seq::<TagModel>::empty() == done);
                return Ok(vec);
            },
            Ok(tag) => {
                proof {
                    lemma_tag_advances(bytes, cur);
                    let rest = read_compound(bytes, reader.pos());
                    assert(done.push(tag@) == models(vec@.push(tag)));
                    if rest.outcome is Ok {
                        assert(done + (seq![tag@] + rest.outcome->Ok_0) == done.push(tag@)
                            + rest.outcome->Ok_0);
                    }
                }
                vec.push(tag);
            },
        }
    }
}

/// Reads a whole tag: the type id, then the name and the value that the id
/// calls for; `End` has neither.
pub fn parse_next(reader: &mut ByteReader) -> (res: Result<NbtTag, NbtParseError>)
    ensures
        final(reader).follows(old(reader)),
        read_tag(old(reader).bytes(), old(reader).pos()) == step_of_view(res, final(reader).pos()),
    decreases old(reader).bytes().len() - old(reader).pos(), 0int,
{
    match next_byte(reader)? {
        0 => parse_end(reader),
        1 => parse_byte(reader),
        2 => parse_short(reader),
        3 => parse_int(reader),
        4 => parse_long(reader),
        5 => parse_float(reader),
        6 => parse_double(reader),
        7 => parse_byte_arr(reader),
        8 => parse_string(reader),
        9 => parse_list(reader),
        10 => parse_compound(reader),
        11 => parse_int_array(reader),
        12 => parse_long_array(reader),
        id => Err(NbtParseError::UnknownNBT(id)),
    }
}

/// The tag that an id of 0 stands for; nothing is read.
pub fn parse_end(reader: &mut ByteReader) -> (res: Result<NbtTag, NbtParseError>)
    ensures
        final(reader).follows(old(reader)),
        final(reader).pos() == old(reader).pos(),
        res matches Ok(tag) && tag@ == TagModel::End,
{
    proof {
        use_type_invariant(&*reader);
    }
    Ok(NbtTag::End)
}

/// Reads an 8-bit integer behind its type id: the name, then the value.
pub fn parse_byte(reader: &mut ByteReader) -> (res: Result<NbtTag, NbtParseError>)
    ensures
        final(reader).follows(old(reader)),
        read_named(old(reader).bytes(), old(reader).pos(), 1) == step_of_view(
            res,
            final(reader).pos(),
        ),
{
    let name = next_string(reader)?;
    let value = next_byte(reader)?;
    Ok(NbtTag::Byte(name, value))
}

/// Reads a 16-bit integer behind its type id: the name, then the value.
pub fn parse_short(reader: &mut ByteReader) -> (res: Result<NbtTag, NbtParseError>)
    ensures
        final(reader).follows(old(reader)),
        read_named(old(reader).bytes(), old(reader).pos(), 2) == step_of_view(
            res,
            final(reader).pos(),
        ),
{
    let name = next_string(reader)?;
    let value = next_short(reader)?;
    Ok(NbtTag::Short(name, value))
}

/// Reads a 32-bit integer behind its type id: the name, then the value.
pub fn parse_int(reader: &mut ByteReader) -> (res: Result<NbtTag, NbtParseError>)
    ensures
        final(reader).follows(old(reader)),
        read_named(old(reader).bytes(), old(reader).pos(), 3) == step_of_view(
            res,
            final(reader).pos(),
        ),
{
    let name = next_string(reader)?;
    let value = next_int(reader)?;
    Ok(NbtTag::Int(name, value))
}

/// Reads a 64-bit integer behind its type id: the name, then the value.
pub fn parse_long(reader: &mut ByteReader) -> (res: Result<NbtTag, NbtParseError>)
    ensures
        final(reader).follows(old(reader)),
        read_named(old(reader).bytes(), old(reader).pos(), 4) == step_of_view(
            res,
            final(reader).pos(),
        ),
{
    let name = next_string(reader)?;
    let value = next_long(reader)?;
    Ok(NbtTag::Long(name, value))
}

/// Reads a 32-bit IEEE 754 number behind its type id: the name, then the value.
pub fn parse_float(reader: &mut ByteReader) -> (res: Result<NbtTag, NbtParseError>)
    ensures
        final(reader).follows(old(reader)),
        read_named(old(reader).bytes(), old(reader).pos(), 5) == step_of_view(
            res,
            final(reader).pos(),
        ),
{
    let name = next_string(reader)?;
    let value = next_float(reader)?;
    Ok(NbtTag::Float(name, value))
}

/// Reads a 64-bit IEEE 754 number behind its type id: the name, then the value.
pub fn parse_double(reader: &mut ByteReader) -> (res: Result<NbtTag, NbtParseError>)
    ensures
        final(reader).follows(old(reader)),
        read_named(old(reader).bytes(), old(reader).pos(), 6) == step_of_view(
            res,
            final(reader).pos(),
        ),
{
    let name = next_string(reader)?;
    let value = next_double(reader)?;
    Ok(NbtTag::Double(name, value))
}

/// Reads an array of bytes behind its type id: the name, then the value.
pub fn parse_byte_arr(reader: &mut ByteReader) -> (res: Result<NbtTag, NbtParseError>)
    ensures
        final(reader).follows(old(reader)),
        read_named(old(reader).bytes(), old(reader).pos(), 7) == step_of_view(
            res,
            final(reader).pos(),
        ),
{
    let name = next_string(reader)?;
    let value = next_byte_arr(reader)?;
    Ok(NbtTag::ByteArray(name, value))
}

/// Reads a text behind its type id: the name, then the value.
pub fn parse_string(reader: &mut ByteReader) -> (res: Result<NbtTag, NbtParseError>)
    ensures
        final(reader).follows(old(reader)),
        read_named(old(reader).bytes(), old(reader).pos(), 8) == step_of_view(
            res,
            final(reader).pos(),
        ),
{
    let name = next_string(reader)?;
    let value = next_string(reader)?;
    Ok(NbtTag::String(name, value))
}

/// Reads a list behind its type id: the name, then the value.
pub fn parse_list(reader: &mut ByteReader) -> (res: Result<NbtTag, NbtParseError>)
    ensures
        final(reader).follows(old(reader)),
        read_named(old(reader).bytes(), old(reader).pos(), 9) == step_of_view(
            res,
            final(reader).pos(),
        ),
    decreases old(reader).bytes().len() - old(reader).pos(), 3int,
{
    let name = next_string(reader)?;
    let value = next_list(reader)?;
    Ok(NbtTag::List(name, value))
}

/// Reads a compound behind its type id: the name, then the value.
pub fn parse_compound(reader: &mut ByteReader) -> (res: Result<NbtTag, NbtParseError>)
    ensures
        final(reader).follows(old(reader)),
        read_named(old(reader).bytes(), old(reader).pos(), 10) == step_of_view(
            res,
            final(reader).pos(),
        ),
    decreases old(reader).bytes().len() - old(reader).pos(), 3int,
{
    let name = next_string(reader)?;
    let value = next_compound(reader)?;
    Ok(NbtTag::Compound(name, value))
}

/// Reads an array of ints behind its type id: the name, then the value.
pub fn parse_int_array(reader: &mut ByteReader) -> (res: Result<NbtTag, NbtParseError>)
    ensures
        final(reader).follows(old(reader)),
        read_named(old(reader).bytes(), old(reader).pos(), 11) == step_of_view(
            res,
            final(reader).pos(),
        ),
{
    let name = next_string(reader)?;
    let value = next_int_arr(reader)?;
    Ok(NbtTag::IntArray(name, value))
}

/// Reads an array of longs behind its type id: the name, then the value.
pub fn parse_long_array(reader: &mut ByteReader) -> (res: Result<NbtTag, NbtParseError>)
    ensures
        final(reader).follows(old(reader)),
        read_named(old(reader).bytes(), old(reader).pos(), 12) == step_of_view(
            res,
            final(reader).pos(),
        ),
{
    let name = next_string(reader)?;
    let value = next_long_arr(reader)?;
    Ok(NbtTag::LongArray(name, value))
}

/// The value of a decoder's result.
pub open spec fn outcome_of(res: Result<NbtTag, NbtParseError>) -> Result<TagModel, ErrorModel> {
    match res {
        Ok(tag) => Ok(tag@),
        Err(e) => Err(e@),
    }
}

/// What decoding gzip-compressed bytes gives: the tag decoded from the
/// decompressed bytes, or `DecompressionError` where they are no gzip
/// stream.
pub open spec fn decode_gzip(compressed: Seq<u8>) -> Result<TagModel, ErrorModel> {
    match gunzip(compressed) {
        Some(raw) => decode(raw),
        None => Err(ErrorModel::DecompressionError),
    }
}

/// What decoding zlib-compressed bytes gives: the tag decoded from the
/// decompressed bytes, or `DecompressionError` where they are no zlib
/// stream.
pub open spec fn decode_zlib(compressed: Seq<u8>) -> Result<TagModel, ErrorModel> {
    match unzlib(compressed) {
        Some(raw) => decode(raw),
        None => Err(ErrorModel::DecompressionError),
    }
}

/// What decoding compressed bytes of either kind gives: as gzip where the
/// bytes are a gzip stream, else as zlib.
pub open spec fn decode_compressed(compressed: Seq<u8>) -> Result<TagModel, ErrorModel> {
    match gunzip(compressed) {
        Some(raw) => decode(raw),
        None => decode_zlib(compressed),
    }
}

/// The compressed entry point needs no word on the format: a gzip stream
/// is decoded as what it holds, a zlib stream that is no gzip stream as what
/// it holds, and bytes that are neither give `DecompressionError`.
pub proof fn lemma_compressed_format_is_found(compressed: Seq<u8>)
    ensures
        gunzip(compressed) matches Some(raw) ==> decode_compressed(compressed) == decode(raw),
        gunzip(compressed) is None ==> (unzlib(compressed) matches Some(raw)
            ==> decode_compressed(compressed) == decode(raw)),
        gunzip(compressed) is None && unzlib(compressed) is None ==> decode_compressed(compressed)
            == Err::<TagModel, ErrorModel>(ErrorModel::DecompressionError),
{
}

/// Decodes the tag that stands at the start of `data_vec`. Bytes behind
/// that tag are not looked at.
pub fn parse_binary(data_vec: Vec<u8>) -> (res: Result<NbtTag, NbtParseError>)
    ensures
        outcome_of(res) == decode(data_vec@),
        res matches Ok(tag) ==> well_formed(tag@),
{
    proof {
        lemma_decoded_is_well_formed(data_vec@);
    }
    let mut reader = ByteReader::new(data_vec.as_slice());
    parse_next(&mut reader)
}

/// Decompresses `compressed` as gzip and decodes the result.
pub fn parse_gzip(compressed: Vec<u8>) -> (res: Result<NbtTag, NbtParseError>)
    ensures
        outcome_of(res) == decode_gzip(compressed@),
        res matches Ok(tag) ==> well_formed(tag@),
{
    match gzip_decompress(&compressed) {
        Ok(data) => parse_binary(data),
        Err(_) => Err(NbtParseError::DecompressionError),
    }
}

/// Decompresses `compressed` as zlib and decodes the result.
pub fn parse_zlib(compressed: Vec<u8>) -> (res: Result<NbtTag, NbtParseError>)
    ensures
        outcome_of(res) == decode_zlib(compressed@),
        res matches Ok(tag) ==> well_formed(tag@),
{
    match zlib_decompress(&compressed) {
        Ok(data) => parse_binary(data),
        Err(_) => Err(NbtParseError::DecompressionError),
    }
}

/// Decompresses `compressed`, as gzip if it is that and else as zlib, and
/// decodes the result. Bytes that are neither give `DecompressionError`;
/// what a gzip stream holds is not tried again as zlib.
pub fn parse_compressed(compressed: Vec<u8>) -> (res: Result<NbtTag, NbtParseError>)
    ensures
        outcome_of(res) == decode_compressed(compressed@),
        res matches Ok(tag) ==> well_formed(tag@),
{
    match gzip_decompress(&compressed) {
        Ok(data) => parse_binary(data),
        Err(_) => parse_zlib(compressed),
    }
}

} // verus!
