//! The bytes that stand for a tag. Nothing here runs: the encoding is the
//! yardstick that the decoder is held to.

use vstd::prelude::*;
use vstd::utf8::encode_utf8;

use crate::types::TagModel;

verus! {

/// The `width` bytes that spell `value` in big-endian order.
pub open spec fn be_bytes(value: nat, width: nat) -> Seq<u8>
    decreases width,
{
    if width == 0 {
        Seq::empty()
    } else {
        be_bytes(value / 256, (width - 1) as nat).push((value % 256) as u8)
    }
}

/// The bit pattern that stands for `value` in two's complement, where
/// patterns range over `0..modulus`.
pub open spec fn pattern(value: int, modulus: int) -> nat {
    if value < 0 {
        (value + modulus) as nat
    } else {
        value as nat
    }
}

/// The byte with the bit pattern of `value`.
pub open spec fn byte_pattern(value: i8) -> u8 {
    pattern(value as int, 0x100) as u8
}

/// A short as two bytes.
pub open spec fn encode_short(value: i16) -> Seq<u8> {
    be_bytes(pattern(value as int, 0x1_0000), 2)
}

/// An int as four bytes.
pub open spec fn encode_int(value: i32) -> Seq<u8> {
    be_bytes(pattern(value as int, 0x1_0000_0000), 4)
}

/// A long as eight bytes.
pub open spec fn encode_long(value: i64) -> Seq<u8> {
    be_bytes(pattern(value as int, 0x1_0000_0000_0000_0000), 8)
}

/// Whether a text is short enough for its length prefix: at most 32767
/// bytes of UTF-8.
pub open spec fn text_fits(text: Seq<char>) -> bool {
    encode_utf8(text).len() <= 0x7fff
}

/// A text as its length in bytes and its UTF-8.
pub open spec fn encode_string(text: Seq<char>) -> Seq<u8> {
    encode_short(encode_utf8(text).len() as i16) + encode_utf8(text)
}

/// Ints one after another.
pub open spec fn encode_ints(items: Seq<i32>) -> Seq<u8>
    decreases items.len(),
{
    if items.len() == 0 {
        Seq::empty()
    } else {
        encode_ints(items.drop_last()) + encode_int(items.last())
    }
}

/// Longs one after another.
pub open spec fn encode_longs(items: Seq<i64>) -> Seq<u8>
    decreases items.len(),
{
    if items.len() == 0 {
        Seq::empty()
    } else {
        encode_longs(items.drop_last()) + encode_long(items.last())
    }
}

/// The element type that a list is written with: that of its first
/// element, and 0 for the empty list.
pub open spec fn element_id(items: Seq<TagModel>) -> i8 {
    if items.len() == 0 {
        0
    } else {
        items[0].type_id()
    }
}

/// The value of a tag, without id and name. `End` has none.
pub open spec fn encode_payload(tag: TagModel) -> Seq<u8>
    decreases tag, 0int,
{
    match tag {
        TagModel::End => Seq::empty(),
        TagModel::Byte(_, value) => seq![byte_pattern(value)],
        TagModel::Short(_, value) => encode_short(value),
        TagModel::Int(_, value) => encode_int(value),
        TagModel::Long(_, value) => encode_long(value),
        TagModel::Float(_, bits) => be_bytes(bits as nat, 4),
        TagModel::Double(_, bits) => be_bytes(bits as nat, 8),
        TagModel::ByteArray(_, items) => encode_int(items.len() as i32) + Seq::new(
            items.len(),
            |i: int| byte_pattern(items[i]),
        ),
        TagModel::String(_, text) => encode_string(text),
        TagModel::List(_, items) => seq![byte_pattern(element_id(items))] + encode_int(
            items.len() as i32,
        ) + encode_elements(items),
        TagModel::Compound(_, children) => encode_children(children) + seq![0u8],
        TagModel::IntArray(_, items) => encode_int(items.len() as i32) + encode_ints(items),
        TagModel::LongArray(_, items) => encode_int(items.len() as i32) + encode_longs(items),
    }
}

/// The values of the elements of a list, one after another.
pub open spec fn encode_elements(items: Seq<TagModel>) -> Seq<u8>
    decreases items, 0int,
{
    if items.len() == 0 {
        Seq::empty()
    } else {
        encode_payload(items[0]) + encode_elements(items.drop_first())
    }
}

/// The children of a compound as whole tags, one after another.
pub open spec fn encode_children(children: Seq<TagModel>) -> Seq<u8>
    decreases children, 0int,
{
    if children.len() == 0 {
        Seq::empty()
    } else {
        encode_tag(children[0]) + encode_children(children.drop_first())
    }
}

/// A whole tag: the single byte 0 for `End`, and id, name and value for
/// every other tag.
pub open spec fn encode_tag(tag: TagModel) -> Seq<u8>
    decreases tag, 1int,
{
    match tag {
        TagModel::End => seq![0u8],
        _ => seq![byte_pattern(tag.type_id())] + encode_string(tag.name()) + encode_payload(tag),
    }
}

/// Whether a tree is one that the wire format can express, which are also
/// the only trees that decoding gives: every text fits its length prefix,
/// every array and list fits its count, the elements of a list are unnamed
/// and all of one type that is not `End`, and no child of a compound is
/// `End`.
pub open spec fn well_formed(tag: TagModel) -> bool
    decreases tag,
{
    &&& text_fits(tag.name())
    &&& match tag {
        TagModel::ByteArray(_, items) => items.len() <= i32::MAX,
        TagModel::String(_, text) => text_fits(text),
        TagModel::List(_, items) => {
            &&& items.len() <= i32::MAX
            &&& forall|i: int|
                0 <= i < items.len() ==> {
                    &&& (#[trigger] items[i]).name() == Seq::<char>::empty()
                    &&& items[i].type_id() == items[0].type_id()
                    &&& items[i] !is End
                    &&& well_formed(items[i])
                }
        },
        TagModel::Compound(_, children) => forall|i: int|
            0 <= i < children.len() ==> {
                &&& (#[trigger] children[i]) !is End
                &&& well_formed(children[i])
            },
        TagModel::IntArray(_, items) => items.len() <= i32::MAX,
        TagModel::LongArray(_, items) => items.len() <= i32::MAX,
        _ => true,
    }
}

} // verus!
