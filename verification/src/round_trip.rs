//! Decoding undoes encoding: the bytes that stand for a well-formed tree
//! decode to that tree, whatever follows them.

use vstd::prelude::*;
use vstd::utf8::{encode_utf8, encode_utf8_decode_utf8, encode_utf8_valid_utf8};

use crate::encoding::{
    be_bytes, byte_pattern, element_id, encode_children, encode_elements, encode_int,
    encode_ints, encode_long, encode_longs, encode_payload, encode_short, encode_string,
    encode_tag, pattern, text_fits, well_formed,
};
use crate::parse_error::ErrorModel;
use crate::types::TagModel;
use crate::wire::{
    be_value, byte_value, decode, int_at, int_value, lemma_payload_advances,
    lemma_tag_advances, long_at, long_value, read_byte_array, read_compound, read_elements,
    read_int, read_int_array, read_long_array, read_payload, read_short, read_string, read_tag,
    short_value, signed, Step,
};

verus! {

/// Whether `part` stands in `bytes` from `pos` on.
pub open spec fn holds_at(bytes: Seq<u8>, pos: int, part: Seq<u8>) -> bool {
    &&& 0 <= pos
    &&& pos + part.len() <= bytes.len()
    &&& bytes.subrange(pos, pos + part.len()) == part
}

/// Where two parts stand one after the other, each stands in its place.
pub proof fn lemma_holds_split(bytes: Seq<u8>, pos: int, first: Seq<u8>, second: Seq<u8>)
    requires
        holds_at(bytes, pos, first + second),
    ensures
        holds_at(bytes, pos, first),
        holds_at(bytes, pos + first.len(), second),
{
    let whole = first + second;
    let found = bytes.subrange(pos, pos + whole.len());
    assert forall|i: int| 0 <= i < first.len() implies bytes[pos + i] == first[i] by {
        assert(found[i] == whole[i]);
    }
    assert forall|i: int| 0 <= i < second.len() implies bytes[pos + first.len() + i]
        == second[i] by {
        assert(found[first.len() + i] == whole[first.len() + i]);
    }
    assert(bytes.subrange(pos, pos + first.len()) == first);
    assert(bytes.subrange(pos + first.len(), pos + first.len() + second.len()) == second);
}

/// 256 to the power of `width`: the number of patterns of `width` bytes.
pub open spec fn radix(width: nat) -> nat
    decreases width,
{
    if width == 0 {
        1
    } else {
        256 * radix((width - 1) as nat)
    }
}

/// A number written in `width` bytes takes `width` bytes.
pub proof fn lemma_be_bytes_len(value: nat, width: nat)
    ensures
        be_bytes(value, width).len() == width,
    decreases width,
{
    if width > 0 {
        lemma_be_bytes_len(value / 256, (width - 1) as nat);
    }
}

/// The bytes written for a number that fits spell that number.
pub proof fn lemma_be_value_of_be_bytes(value: nat, width: nat)
    requires
        value < radix(width),
    ensures
        be_value(be_bytes(value, width)) == value,
    decreases width,
{
    if width > 0 {
        let less = (width - 1) as nat;
        lemma_be_bytes_len(value / 256, less);
        lemma_be_value_of_be_bytes(value / 256, less);
        assert(be_bytes(value, width).drop_last() == be_bytes(value / 256, less));
    }
}

/// The two's complement pattern of a number stands for that number.
pub proof fn lemma_signed_of_pattern(value: int, modulus: int)
    requires
        -modulus <= 2 * value < modulus,
    ensures
        0 <= pattern(value, modulus) < modulus,
        signed(pattern(value, modulus) as int, modulus) == value,
{
}

/// A byte decodes to the value that it was written for.
pub proof fn lemma_byte_round_trip(value: i8)
    ensures
        byte_value(byte_pattern(value)) == value,
{
}

/// Two bytes decode to the short that they were written for.
pub proof fn lemma_short_round_trip(value: i16)
    ensures
        encode_short(value).len() == 2,
        short_value(encode_short(value)) == value,
{
    reveal_with_fuel(radix, 3);
    lemma_be_bytes_len(pattern(value as int, 0x1_0000), 2);
    lemma_be_value_of_be_bytes(pattern(value as int, 0x1_0000), 2);
}

/// Four bytes decode to the int that they were written for.
pub proof fn lemma_int_round_trip(value: i32)
    ensures
        encode_int(value).len() == 4,
        int_value(encode_int(value)) == value,
{
    reveal_with_fuel(radix, 5);
    lemma_be_bytes_len(pattern(value as int, 0x1_0000_0000), 4);
    lemma_be_value_of_be_bytes(pattern(value as int, 0x1_0000_0000), 4);
}

/// Eight bytes decode to the long that they were written for.
pub proof fn lemma_long_round_trip(value: i64)
    ensures
        encode_long(value).len() == 8,
        long_value(encode_long(value)) == value,
{
    reveal_with_fuel(radix, 9);
    lemma_be_bytes_len(pattern(value as int, 0x1_0000_0000_0000_0000), 8);
    lemma_be_value_of_be_bytes(pattern(value as int, 0x1_0000_0000_0000_0000), 8);
}

/// Four bytes decode to the bit pattern that they were written for.
pub proof fn lemma_float_round_trip(bits: u32)
    ensures
        be_bytes(bits as nat, 4).len() == 4,
        be_value(be_bytes(bits as nat, 4)) == bits,
{
    reveal_with_fuel(radix, 5);
    lemma_be_bytes_len(bits as nat, 4);
    lemma_be_value_of_be_bytes(bits as nat, 4);
}

/// Eight bytes decode to the bit pattern that they were written for.
pub proof fn lemma_double_round_trip(bits: u64)
    ensures
        be_bytes(bits as nat, 8).len() == 8,
        be_value(be_bytes(bits as nat, 8)) == bits,
{
    reveal_with_fuel(radix, 9);
    lemma_be_bytes_len(bits as nat, 8);
    lemma_be_value_of_be_bytes(bits as nat, 8);
}

/// Reading where an encoded short stands gives that short.
pub proof fn lemma_read_short_of_encoded(bytes: Seq<u8>, pos: int, value: i16)
    requires
        holds_at(bytes, pos, encode_short(value)),
    ensures
        read_short(bytes, pos) == (Step { outcome: Ok::<i16, ErrorModel>(value), pos: pos + 2 }),
{
    lemma_short_round_trip(value);
}

/// Reading where an encoded int stands gives that int.
pub proof fn lemma_read_int_of_encoded(bytes: Seq<u8>, pos: int, value: i32)
    requires
        holds_at(bytes, pos, encode_int(value)),
    ensures
        read_int(bytes, pos) == (Step { outcome: Ok::<i32, ErrorModel>(value), pos: pos + 4 }),
{
    lemma_int_round_trip(value);
}

/// Reading where an encoded text stands gives that text.
pub proof fn lemma_read_string_of_encoded(bytes: Seq<u8>, pos: int, text: Seq<char>)
    requires
        text_fits(text),
        holds_at(bytes, pos, encode_string(text)),
    ensures
        read_string(bytes, pos) == (Step {
            outcome: Ok::<Seq<char>, ErrorModel>(text),
            pos: pos + encode_string(text).len(),
        }),
        encode_string(text).len() >= 2,
{
    let utf8 = encode_utf8(text);
    let length = utf8.len() as i16;
    lemma_holds_split(bytes, pos, encode_short(length), utf8);
    lemma_read_short_of_encoded(bytes, pos, length);
    lemma_short_round_trip(length);
    encode_utf8_valid_utf8(text);
    encode_utf8_decode_utf8(text);
}

/// Ints written one after another take 4 bytes each.
pub proof fn lemma_encode_ints_len(items: Seq<i32>)
    ensures
        encode_ints(items).len() == 4 * items.len(),
    decreases items.len(),
{
    if items.len() > 0 {
        lemma_encode_ints_len(items.drop_last());
        lemma_int_round_trip(items.last());
    }
}

/// Of ints written one after another the `i`-th stands at `4 * i`.
pub proof fn lemma_encode_ints_chunk(items: Seq<i32>, i: int)
    requires
        0 <= i < items.len(),
    ensures
        encode_ints(items).len() == 4 * items.len(),
        encode_ints(items).subrange(4 * i, 4 * i + 4) == encode_int(items[i]),
    decreases items.len(),
{
    let front = items.drop_last();
    lemma_int_round_trip(items.last());
    lemma_encode_ints_len(front);
    lemma_encode_ints_len(items);
    if i < front.len() {
        lemma_encode_ints_chunk(front, i);
        assert(encode_ints(items).subrange(4 * i, 4 * i + 4) == encode_ints(front).subrange(
            4 * i,
            4 * i + 4,
        ));
    } else {
        assert(encode_ints(items).subrange(4 * i, 4 * i + 4) == encode_int(items.last()));
    }
}

/// Reading where an encoded array of ints stands gives that array.
pub proof fn lemma_read_int_array_of_encoded(bytes: Seq<u8>, pos: int, items: Seq<i32>)
    requires
        items.len() <= i32::MAX,
        holds_at(bytes, pos, encode_int(items.len() as i32) + encode_ints(items)),
    ensures
        read_int_array(bytes, pos) == (Step {
            outcome: Ok::<Seq<i32>, ErrorModel>(items),
            pos: pos + 4 + 4 * items.len(),
        }),
        (encode_int(items.len() as i32) + encode_ints(items)).len() == 4 + 4 * items.len(),
{
    let n = items.len() as i32;
    lemma_holds_split(bytes, pos, encode_int(n), encode_ints(items));
    lemma_read_int_of_encoded(bytes, pos, n);
    lemma_int_round_trip(n);
    if n > 0 {
        lemma_encode_ints_chunk(items, 0);
        let got = Seq::new(n as nat, |i: int| int_at(bytes, pos + 4, i));
        assert forall|i: int| 0 <= i < n implies got[i] == items[i] by {
            lemma_encode_ints_chunk(items, i);
            lemma_int_round_trip(items[i]);
            assert(bytes.subrange(pos + 4 + 4 * i, pos + 4 + 4 * i + 4) == encode_ints(
                items,
            ).subrange(4 * i, 4 * i + 4));
        }
        assert(got == items);
    } else {
        assert(items == Seq::<i32>::empty());
    }
}

/// Longs written one after another take 8 bytes each.
pub proof fn lemma_encode_longs_len(items: Seq<i64>)
    ensures
        encode_longs(items).len() == 8 * items.len(),
    decreases items.len(),
{
    if items.len() > 0 {
        lemma_encode_longs_len(items.drop_last());
        lemma_long_round_trip(items.last());
    }
}

/// Of longs written one after another the `i`-th stands at `8 * i`.
pub proof fn lemma_encode_longs_chunk(items: Seq<i64>, i: int)
    requires
        0 <= i < items.len(),
    ensures
        encode_longs(items).len() == 8 * items.len(),
        encode_longs(items).subrange(8 * i, 8 * i + 8) == encode_long(items[i]),
    decreases items.len(),
{
    let front = items.drop_last();
    lemma_long_round_trip(items.last());
    lemma_encode_longs_len(front);
    lemma_encode_longs_len(items);
    if i < front.len() {
        lemma_encode_longs_chunk(front, i);
        assert(encode_longs(items).subrange(8 * i, 8 * i + 8) == encode_longs(front).subrange(
            8 * i,
            8 * i + 8,
        ));
    } else {
        assert(encode_longs(items).subrange(8 * i, 8 * i + 8) == encode_long(items.last()));
    }
}

/// Reading where an encoded array of longs stands gives that array.
pub proof fn lemma_read_long_array_of_encoded(bytes: Seq<u8>, pos: int, items: Seq<i64>)
    requires
        items.len() <= i32::MAX,
        holds_at(bytes, pos, encode_int(items.len() as i32) + encode_longs(items)),
    ensures
        read_long_array(bytes, pos) == (Step {
            outcome: Ok::<Seq<i64>, ErrorModel>(items),
            pos: pos + 4 + 8 * items.len(),
        }),
        (encode_int(items.len() as i32) + encode_longs(items)).len() == 4 + 8 * items.len(),
{
    let n = items.len() as i32;
    lemma_holds_split(bytes, pos, encode_int(n), encode_longs(items));
    lemma_read_int_of_encoded(bytes, pos, n);
    lemma_int_round_trip(n);
    if n > 0 {
        lemma_encode_longs_chunk(items, 0);
        let got = Seq::new(n as nat, |i: int| long_at(bytes, pos + 4, i));
        assert forall|i: int| 0 <= i < n implies got[i] == items[i] by {
            lemma_encode_longs_chunk(items, i);
            lemma_long_round_trip(items[i]);
            assert(bytes.subrange(pos + 4 + 8 * i, pos + 4 + 8 * i + 8) == encode_longs(
                items,
            ).subrange(8 * i, 8 * i + 8));
        }
        assert(got == items);
    } else {
        assert(items == Seq::<i64>::empty());
    }
}

/// Reading where an encoded array of bytes stands gives that array.
pub proof fn lemma_read_byte_array_of_encoded(bytes: Seq<u8>, pos: int, items: Seq<i8>)
    requires
        items.len() <= i32::MAX,
        holds_at(
            bytes,
            pos,
            encode_int(items.len() as i32) + Seq::new(items.len(), |i: int| byte_pattern(items[i])),
        ),
    ensures
        read_byte_array(bytes, pos) == (Step {
            outcome: Ok::<Seq<i8>, ErrorModel>(items),
            pos: pos + 4 + items.len(),
        }),
{
    let n = items.len() as i32;
    let raw = Seq::new(items.len(), |i: int| byte_pattern(items[i]));
    lemma_holds_split(bytes, pos, encode_int(n), raw);
    lemma_read_int_of_encoded(bytes, pos, n);
    lemma_int_round_trip(n);
    if n > 0 {
        let got = Seq::new(raw.len(), |i: int| byte_value(raw[i]));
        assert forall|i: int| 0 <= i < n implies got[i] == items[i] by {
            lemma_byte_round_trip(items[i]);
        }
        assert(got == items);
    } else {
        assert(items == Seq::<i8>::empty());
    }
}

/// Reading where the value of a well-formed tag stands, with the id and
/// the name of that tag, gives the tag.
pub proof fn lemma_read_payload_of_encoded(bytes: Seq<u8>, pos: int, tag: TagModel)
    requires
        well_formed(tag),
        tag !is End,
        holds_at(bytes, pos, encode_payload(tag)),
    ensures
        read_payload(bytes, pos, tag.type_id(), tag.name()) == (Step {
            outcome: Ok::<TagModel, ErrorModel>(tag),
            pos: pos + encode_payload(tag).len(),
        }),
    decreases tag, 0int,
{
    match tag {
        TagModel::End => {},
        TagModel::Byte(_, value) => {
            lemma_byte_round_trip(value);
            assert(bytes.subrange(pos, pos + 1)[0] == byte_pattern(value));
        },
        TagModel::Short(_, value) => {
            lemma_read_short_of_encoded(bytes, pos, value);
            lemma_short_round_trip(value);
        },
        TagModel::Int(_, value) => {
            lemma_read_int_of_encoded(bytes, pos, value);
            lemma_int_round_trip(value);
        },
        TagModel::Long(_, value) => {
            lemma_long_round_trip(value);
        },
        TagModel::Float(_, bits) => {
            lemma_float_round_trip(bits);
        },
        TagModel::Double(_, bits) => {
            lemma_double_round_trip(bits);
        },
        TagModel::ByteArray(_, items) => {
            lemma_read_byte_array_of_encoded(bytes, pos, items);
            lemma_int_round_trip(items.len() as i32);
        },
        TagModel::String(_, text) => {
            lemma_read_string_of_encoded(bytes, pos, text);
        },
        TagModel::List(_, items) => {
            let id = element_id(items);
            let n = items.len() as i32;
            lemma_holds_split(
                bytes,
                pos,
                seq![byte_pattern(id)] + encode_int(n),
                encode_elements(items),
            );
            lemma_holds_split(bytes, pos, seq![byte_pattern(id)], encode_int(n));
            lemma_byte_round_trip(id);
            assert(bytes.subrange(pos, pos + 1)[0] == byte_pattern(id));
            lemma_read_int_of_encoded(bytes, pos + 1, n);
            lemma_int_round_trip(n);
            lemma_read_elements_of_encoded(bytes, pos + 5, items, id);
        },
        TagModel::Compound(_, children) => {
            lemma_read_children_of_encoded(bytes, pos, children);
        },
        TagModel::IntArray(_, items) => {
            lemma_read_int_array_of_encoded(bytes, pos, items);
        },
        TagModel::LongArray(_, items) => {
            lemma_read_long_array_of_encoded(bytes, pos, items);
        },
    }
}

/// Reading where the values of unnamed well-formed tags of one type stand
/// gives those tags.
pub proof fn lemma_read_elements_of_encoded(
    bytes: Seq<u8>,
    pos: int,
    items: Seq<TagModel>,
    id: i8,
)
    requires
        forall|i: int|
            0 <= i < items.len() ==> {
                &&& (#[trigger] items[i]).name() == Seq::<char>::empty()
                &&& items[i].type_id() == id
                &&& items[i] !is End
                &&& well_formed(items[i])
            },
        holds_at(bytes, pos, encode_elements(items)),
    ensures
        read_elements(bytes, pos, id, items.len() as int) == (Step {
            outcome: Ok::<Seq<TagModel>, ErrorModel>(items),
            pos: pos + encode_elements(items).len(),
        }),
    decreases items, 0int,
{
    if items.len() == 0 {
        assert(items == Seq::<TagModel>::empty());
    } else {
        let first = items[0];
        let rest = items.drop_first();
        lemma_holds_split(bytes, pos, encode_payload(first), encode_elements(rest));
        lemma_read_payload_of_encoded(bytes, pos, first);
        lemma_payload_advances(bytes, pos, id, Seq::empty());
        assert forall|i: int| 0 <= i < rest.len() implies {
            &&& (#[trigger] rest[i]).name() == Seq::<char>::empty()
            &&& rest[i].type_id() == id
            &&& rest[i] !is End
            &&& well_formed(rest[i])
        } by {
            assert(rest[i] == items[i + 1]);
        }
        lemma_read_elements_of_encoded(bytes, pos + encode_payload(first).len(), rest, id);
        assert(seq![first] + rest == items);
    }
}

/// Reading where well-formed tags and the `End` behind them stand gives
/// those tags.
pub proof fn lemma_read_children_of_encoded(bytes: Seq<u8>, pos: int, children: Seq<TagModel>)
    requires
        forall|i: int|
            0 <= i < children.len() ==> {
                &&& (#[trigger] children[i]) !is End
                &&& well_formed(children[i])
            },
        holds_at(bytes, pos, encode_children(children) + seq![0u8]),
    ensures
        read_compound(bytes, pos) == (Step {
            outcome: Ok::<Seq<TagModel>, ErrorModel>(children),
            pos: pos + encode_children(children).len() + 1,
        }),
    decreases children, 0int,
{
    if children.len() == 0 {
        assert(bytes.subrange(pos, pos + 1)[0] == 0u8);
        assert(children == Seq::<TagModel>::empty());
    } else {
        let first = children[0];
        let rest = children.drop_first();
        assert(encode_children(children) + seq![0u8] == encode_tag(first) + (encode_children(rest)
            + seq![0u8]));
        lemma_holds_split(bytes, pos, encode_tag(first), encode_children(rest) + seq![0u8]);
        lemma_read_tag_of_encoded(bytes, pos, first);
        lemma_tag_advances(bytes, pos);
        assert forall|i: int| 0 <= i < rest.len() implies {
            &&& (#[trigger] rest[i]) !is End
            &&& well_formed(rest[i])
        } by {
            assert(rest[i] == children[i + 1]);
        }
        lemma_read_children_of_encoded(bytes, pos + encode_tag(first).len(), rest);
        assert(seq![first] + rest == children);
    }
}

/// Reading where a well-formed tag stands gives that tag and ends behind
/// its last byte.
pub proof fn lemma_read_tag_of_encoded(bytes: Seq<u8>, pos: int, tag: TagModel)
    requires
        well_formed(tag),
        holds_at(bytes, pos, encode_tag(tag)),
    ensures
        read_tag(bytes, pos) == (Step {
            outcome: Ok::<TagModel, ErrorModel>(tag),
            pos: pos + encode_tag(tag).len(),
        }),
    decreases tag, 1int,
{
    if tag is End {
        assert(bytes.subrange(pos, pos + 1)[0] == 0u8);
    } else {
        let id = tag.type_id();
        lemma_holds_split(
            bytes,
            pos,
            seq![byte_pattern(id)] + encode_string(tag.name()),
            encode_payload(tag),
        );
        lemma_holds_split(bytes, pos, seq![byte_pattern(id)], encode_string(tag.name()));
        lemma_byte_round_trip(id);
        assert(bytes.subrange(pos, pos + 1)[0] == byte_pattern(id));
        lemma_read_string_of_encoded(bytes, pos + 1, tag.name());
        lemma_read_payload_of_encoded(bytes, pos + 1 + encode_string(tag.name()).len(), tag);
    }
}

/// Decoding undoes encoding: the bytes written for a well-formed tree,
/// with any bytes behind them, decode to that tree.
pub proof fn lemma_decode_of_encoded(tag: TagModel, rest: Seq<u8>)
    requires
        well_formed(tag),
    ensures
        decode(encode_tag(tag) + rest) == Ok::<TagModel, ErrorModel>(tag),
{
    let bytes = encode_tag(tag) + rest;
    assert(bytes.subrange(0, encode_tag(tag).len() as int) == encode_tag(tag));
    lemma_read_tag_of_encoded(bytes, 0, tag);
}

} // verus!
