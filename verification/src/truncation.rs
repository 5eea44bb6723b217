//! Bytes that end inside the encoding of a tree do not decode: every
//! reader that meets the end reports `EndOfData`.

use vstd::prelude::*;
use vstd::utf8::encode_utf8;

use crate::encoding::{
    byte_pattern, element_id, encode_children, encode_elements, encode_int, encode_ints,
    encode_longs, encode_payload, encode_short, encode_string, encode_tag, text_fits,
    well_formed,
};
use crate::parse_error::ErrorModel;
use crate::round_trip::{
    holds_at, lemma_byte_round_trip, lemma_double_round_trip, lemma_encode_ints_len,
    lemma_encode_longs_len, lemma_float_round_trip, lemma_holds_split, lemma_int_round_trip, lemma_long_round_trip,
    lemma_read_int_of_encoded, lemma_read_payload_of_encoded, lemma_read_short_of_encoded,
    lemma_read_string_of_encoded, lemma_read_tag_of_encoded, lemma_short_round_trip,
};
use crate::types::TagModel;
use crate::wire::{
    decode, lemma_payload_advances, lemma_tag_advances, read_compound, read_elements,
    read_payload, read_string, read_tag,
};

verus! {

/// Whether `bytes` ends inside `part`, of which it holds the start from
/// `pos` on.
pub open spec fn cut_at(bytes: Seq<u8>, pos: int, part: Seq<u8>) -> bool {
    &&& 0 <= pos <= bytes.len() < pos + part.len()
    &&& bytes.subrange(pos, bytes.len() as int) == part.take(bytes.len() - pos)
}

/// Where the bytes end inside two parts that stand one after the other,
/// they end inside the first, or hold the first and end inside the second.
pub proof fn lemma_cut_split(bytes: Seq<u8>, pos: int, first: Seq<u8>, second: Seq<u8>)
    requires
        cut_at(bytes, pos, first + second),
    ensures
        bytes.len() < pos + first.len() ==> cut_at(bytes, pos, first),
        bytes.len() >= pos + first.len() ==> holds_at(bytes, pos, first) && cut_at(
            bytes,
            pos + first.len(),
            second,
        ),
{
    let whole = first + second;
    let have = bytes.len() - pos;
    let found = bytes.subrange(pos, bytes.len() as int);
    assert forall|i: int| 0 <= i < have implies bytes[pos + i] == whole[i] by {
        assert(found[i] == whole.take(have)[i]);
    }
    if bytes.len() < pos + first.len() {
        assert(found == first.take(have));
    } else {
        assert(bytes.subrange(pos, pos + first.len()) == first);
        assert forall|i: int| 0 <= i < have - first.len() implies bytes[pos + first.len() + i]
            == second[i] by {
            assert(whole[first.len() + i] == second[i]);
        }
        assert(bytes.subrange(pos + first.len(), bytes.len() as int) == second.take(
            have - first.len(),
        ));
    }
}

/// Bytes that end inside a text do not hold it.
pub proof fn lemma_cut_string(bytes: Seq<u8>, pos: int, text: Seq<char>)
    requires
        text_fits(text),
        cut_at(bytes, pos, encode_string(text)),
    ensures
        read_string(bytes, pos).outcome == Err::<Seq<char>, ErrorModel>(ErrorModel::EndOfData),
{
    let utf8 = encode_utf8(text);
    let length = utf8.len() as i16;
    lemma_short_round_trip(length);
    lemma_cut_split(bytes, pos, encode_short(length), utf8);
    if bytes.len() >= pos + 2 {
        lemma_read_short_of_encoded(bytes, pos, length);
    }
}

/// Bytes that end inside a count and what it counts do not hold the
/// count, or hold it and too little behind it.
proof fn lemma_cut_counted(bytes: Seq<u8>, pos: int, count: i32, items: Seq<u8>)
    requires
        cut_at(bytes, pos, encode_int(count) + items),
    ensures
        bytes.len() < pos + 4 || (holds_at(bytes, pos, encode_int(count)) && items.len() > 0
            && bytes.len() < pos + 4 + items.len()),
{
    lemma_int_round_trip(count);
    lemma_cut_split(bytes, pos, encode_int(count), items);
}

/// Bytes that end inside the value of a well-formed tag do not hold it.
pub proof fn lemma_cut_payload(bytes: Seq<u8>, pos: int, tag: TagModel)
    requires
        well_formed(tag),
        tag !is End,
        cut_at(bytes, pos, encode_payload(tag)),
    ensures
        read_payload(bytes, pos, tag.type_id(), tag.name()).outcome == Err::<
            TagModel,
            ErrorModel,
        >(ErrorModel::EndOfData),
    decreases tag, 0int,
{
    match tag {
        TagModel::End => {},
        TagModel::Byte(_, _) => {},
        TagModel::Short(_, value) => {
            lemma_short_round_trip(value);
        },
        TagModel::Int(_, value) => {
            lemma_int_round_trip(value);
        },
        TagModel::Long(_, value) => {
            lemma_long_round_trip(value);
        },
        TagModel::Float(_, bits) => {
            lemma_float_round_trip(bits);
        },
        TagModel::Double(_, bits) => {
            lemma_double_round_trip(bits);
        },
        TagModel::ByteArray(_, items) => {
            let n = items.len() as i32;
            lemma_cut_counted(
                bytes,
                pos,
                n,
                Seq::new(items.len(), |i: int| byte_pattern(items[i])),
            );
            if bytes.len() >= pos + 4 {
                lemma_read_int_of_encoded(bytes, pos, n);
            }
        },
        TagModel::String(_, text) => {
            lemma_cut_string(bytes, pos, text);
        },
        TagModel::List(_, items) => {
            let id = element_id(items);
            let n = items.len() as i32;
            let head = seq![byte_pattern(id)] + encode_int(n);
            lemma_int_round_trip(n);
            lemma_cut_split(bytes, pos, head, encode_elements(items));
            if bytes.len() < pos + 5 {
                lemma_cut_split(bytes, pos, seq![byte_pattern(id)], encode_int(n));
                if bytes.len() >= pos + 1 {
                    assert(bytes.subrange(pos, pos + 1)[0] == byte_pattern(id));
                }
            } else {
                lemma_holds_split(
                    bytes,
                    pos,
                    seq![byte_pattern(id)],
                    encode_int(n),
                );
                lemma_byte_round_trip(id);
                assert(bytes.subrange(pos, pos + 1)[0] == byte_pattern(id));
                lemma_read_int_of_encoded(bytes, pos + 1, n);
                lemma_cut_elements(bytes, pos + 5, items, id);
            }
        },
        TagModel::Compound(_, children) => {
            lemma_cut_children(bytes, pos, children);
        },
        TagModel::IntArray(_, items) => {
            let n = items.len() as i32;
            lemma_encode_ints_len(items);
            lemma_cut_counted(bytes, pos, n, encode_ints(items));
            if bytes.len() >= pos + 4 {
                lemma_read_int_of_encoded(bytes, pos, n);
            }
        },
        TagModel::LongArray(_, items) => {
            let n = items.len() as i32;
            lemma_encode_longs_len(items);
            lemma_cut_counted(bytes, pos, n, encode_longs(items));
            if bytes.len() >= pos + 4 {
                lemma_read_int_of_encoded(bytes, pos, n);
            }
        },
    }
}

/// Bytes that end inside the values of unnamed well-formed tags of one
/// type do not hold them.
pub proof fn lemma_cut_elements(bytes: Seq<u8>, pos: int, items: Seq<TagModel>, id: i8)
    requires
        forall|i: int|
            0 <= i < items.len() ==> {
                &&& (#[trigger] items[i]).name() == Seq::<char>::empty()
                &&& items[i].type_id() == id
                &&& items[i] !is End
                &&& well_formed(items[i])
            },
        cut_at(bytes, pos, encode_elements(items)),
    ensures
        read_elements(bytes, pos, id, items.len() as int).outcome == Err::<
            Seq<TagModel>,
            ErrorModel,
        >(ErrorModel::EndOfData),
    decreases items, 0int,
{
    if items.len() > 0 {
        let first = items[0];
        let rest = items.drop_first();
        let width = encode_payload(first).len();
        lemma_cut_split(bytes, pos, encode_payload(first), encode_elements(rest));
        if bytes.len() < pos + width {
            lemma_cut_payload(bytes, pos, first);
        } else {
            lemma_read_payload_of_encoded(bytes, pos, first);
            lemma_payload_advances(bytes, pos, id, Seq::empty());
            assert forall|i: int| 0 <= i < rest.len() implies {
                &&& (#[trigger] rest[i]).name() == Seq::<char>::empty()
                &&& rest[i].type_id() == id
                &&& rest[i] !is End
                &&& well_formed(rest[i])
            } by {
                assert(rest[i] == items[i + 1]);
            }
            lemma_cut_elements(bytes, pos + width, rest, id);
        }
    }
}

/// Bytes that end inside well-formed tags or the `End` behind them do not
/// hold the children of a compound.
pub proof fn lemma_cut_children(bytes: Seq<u8>, pos: int, children: Seq<TagModel>)
    requires
        forall|i: int|
            0 <= i < children.len() ==> {
                &&& (#[trigger] children[i]) !is End
                &&& well_formed(children[i])
            },
        cut_at(bytes, pos, encode_children(children) + seq![0u8]),
    ensures
        read_compound(bytes, pos).outcome == Err::<Seq<TagModel>, ErrorModel>(
            ErrorModel::EndOfData,
        ),
    decreases children, 0int,
{
    if children.len() > 0 {
        let first = children[0];
        let rest = children.drop_first();
        let width = encode_tag(first).len();
        assert(encode_children(children) + seq![0u8] == encode_tag(first) + (encode_children(rest)
            + seq![0u8]));
        lemma_cut_split(bytes, pos, encode_tag(first), encode_children(rest) + seq![0u8]);
        if bytes.len() < pos + width {
            lemma_cut_tag(bytes, pos, first);
        } else {
            lemma_read_tag_of_encoded(bytes, pos, first);
            lemma_tag_advances(bytes, pos);
            assert forall|i: int| 0 <= i < rest.len() implies {
                &&& (#[trigger] rest[i]) !is End
                &&& well_formed(rest[i])
            } by {
                assert(rest[i] == children[i + 1]);
            }
            lemma_cut_children(bytes, pos + width, rest);
        }
    } else {
        assert(encode_children(children).len() == 0);
        assert(read_tag(bytes, pos).outcome is Err);
    }
}

/// Bytes that end inside a well-formed tag do not hold it.
pub proof fn lemma_cut_tag(bytes: Seq<u8>, pos: int, tag: TagModel)
    requires
        well_formed(tag),
        cut_at(bytes, pos, encode_tag(tag)),
    ensures
        read_tag(bytes, pos).outcome == Err::<TagModel, ErrorModel>(ErrorModel::EndOfData),
    decreases tag, 1int,
{
    if tag !is End {
        let id = tag.type_id();
        let head = seq![byte_pattern(id)] + encode_string(tag.name());
        lemma_byte_round_trip(id);
        lemma_cut_split(bytes, pos, head, encode_payload(tag));
        if bytes.len() < pos + head.len() {
            lemma_cut_split(bytes, pos, seq![byte_pattern(id)], encode_string(tag.name()));
            if bytes.len() >= pos + 1 {
                assert(bytes.subrange(pos, pos + 1)[0] == byte_pattern(id));
                lemma_cut_string(bytes, pos + 1, tag.name());
            }
        } else {
            lemma_holds_split(
                bytes,
                pos,
                seq![byte_pattern(id)],
                encode_string(tag.name()),
            );
            assert(bytes.subrange(pos, pos + 1)[0] == byte_pattern(id));
            lemma_read_string_of_encoded(bytes, pos + 1, tag.name());
            lemma_cut_payload(bytes, pos + head.len(), tag);
        }
    }
}

/// The encoding of a well-formed tree with bytes missing at its end, one
/// or more, does not decode: the error is `EndOfData`.
pub proof fn lemma_decode_of_truncated(tag: TagModel, keep: int)
    requires
        well_formed(tag),
        0 <= keep < encode_tag(tag).len(),
    ensures
        decode(encode_tag(tag).take(keep)) == Err::<TagModel, ErrorModel>(ErrorModel::EndOfData),
{
    let bytes = encode_tag(tag).take(keep);
    assert(bytes.subrange(0, keep) == encode_tag(tag).take(keep - 0));
    lemma_cut_tag(bytes, 0, tag);
}

} // verus!
