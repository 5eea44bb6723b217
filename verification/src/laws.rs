//! What holds of every decoding, whatever the bytes.

use vstd::prelude::*;
use vstd::utf8::{decode_utf8_encode_utf8, encode_utf8};

use crate::encoding::{text_fits, well_formed};
use crate::parse_error::ErrorModel;
use crate::types::TagModel;
use crate::wire::{
    advanced, byte_value, decode, int_at, int_value, long_at, read_byte, read_byte_array,
    read_bytes, read_compound, read_elements, read_int, read_int_array, read_list,
    read_long_array, read_named, read_payload, read_short, read_string, read_tag, Step,
};

verus! {

/// An id outside 0 to 12 where a tag begins is refused as `UnknownNBT`
/// with that id, whatever follows it.
pub proof fn lemma_unknown_id_is_refused(bytes: Seq<u8>, pos: int)
    requires
        0 <= pos < bytes.len(),
        !(0 <= byte_value(bytes[pos]) <= 12),
    ensures
        read_tag(bytes, pos) == (Step {
            outcome: Err::<TagModel, ErrorModel>(ErrorModel::UnknownNBT(byte_value(bytes[pos]))),
            pos: pos + 1,
        }),
{
    assert(bytes.subrange(pos, pos + 1)[0] == bytes[pos]);
}

/// Bytes that begin with an id outside 0 to 12 do not decode: the error is
/// `UnknownNBT` with that id.
pub proof fn lemma_unknown_root_id_is_refused(bytes: Seq<u8>)
    requires
        bytes.len() > 0,
        !(0 <= byte_value(bytes[0]) <= 12),
    ensures
        decode(bytes) == Err::<TagModel, ErrorModel>(ErrorModel::UnknownNBT(byte_value(bytes[0]))),
{
    lemma_unknown_id_is_refused(bytes, 0);
}

/// A list whose count is above zero and whose element type is outside 1 to
/// 12 is refused as `UnknownNBT` with that type, whatever follows the
/// count.
pub proof fn lemma_unknown_element_id_is_refused(bytes: Seq<u8>, pos: int)
    requires
        0 <= pos,
        pos + 5 <= bytes.len(),
        !(1 <= byte_value(bytes[pos]) <= 12),
        int_value(bytes.subrange(pos + 1, pos + 5)) > 0,
    ensures
        read_list(bytes, pos) == (Step {
            outcome: Err::<Seq<TagModel>, ErrorModel>(
                ErrorModel::UnknownNBT(byte_value(bytes[pos])),
            ),
            pos: pos + 5,
        }),
{
    assert(bytes.subrange(pos, pos + 1)[0] == bytes[pos]);
}

/// An array whose count is zero or less is the empty array, and reading it
/// takes the four bytes of the count and no more.
pub proof fn lemma_array_of_no_count_is_empty(bytes: Seq<u8>, pos: int)
    requires
        0 <= pos,
        pos + 4 <= bytes.len(),
        int_value(bytes.subrange(pos, pos + 4)) <= 0,
    ensures
        read_byte_array(bytes, pos) == (Step {
            outcome: Ok::<Seq<i8>, ErrorModel>(Seq::empty()),
            pos: pos + 4,
        }),
        read_int_array(bytes, pos) == (Step {
            outcome: Ok::<Seq<i32>, ErrorModel>(Seq::empty()),
            pos: pos + 4,
        }),
        read_long_array(bytes, pos) == (Step {
            outcome: Ok::<Seq<i64>, ErrorModel>(Seq::empty()),
            pos: pos + 4,
        }),
{
}

/// A list whose count is zero or less is the empty list, whatever its
/// element type, and reading it takes the five bytes of type and count and
/// no more.
pub proof fn lemma_list_of_no_count_is_empty(bytes: Seq<u8>, pos: int)
    requires
        0 <= pos,
        pos + 5 <= bytes.len(),
        int_value(bytes.subrange(pos + 1, pos + 5)) <= 0,
    ensures
        read_list(bytes, pos) == (Step {
            outcome: Ok::<Seq<TagModel>, ErrorModel>(Seq::empty()),
            pos: pos + 5,
        }),
{
}

/// A text that was read fits its length prefix.
pub proof fn lemma_read_string_fits(bytes: Seq<u8>, pos: int)
    ensures
        read_string(bytes, pos).outcome matches Ok(text) ==> text_fits(text),
{
    let len = read_short(bytes, pos);
    if len.outcome is Ok {
        let text = read_bytes(bytes, len.pos, len.outcome->Ok_0 as int);
        if text.outcome is Ok && vstd::utf8::valid_utf8(text.outcome->Ok_0) {
            decode_utf8_encode_utf8(text.outcome->Ok_0);
        }
    }
}

/// A value that was read under a name that fits is a well-formed tag of
/// the type asked for, with that name.
pub proof fn lemma_read_payload_well_formed(bytes: Seq<u8>, pos: int, id: i8, name: Seq<char>)
    requires
        text_fits(name),
    ensures
        read_payload(bytes, pos, id, name).outcome matches Ok(tag) ==> {
            &&& well_formed(tag)
            &&& tag.name() == name
            &&& tag.type_id() == id
            &&& tag !is End
        },
    decreases bytes.len() - pos, 2int,
{
    if id == 8 {
        lemma_read_string_fits(bytes, pos);
    } else if id == 9 {
        lemma_read_list_well_formed(bytes, pos);
    } else if id == 10 {
        lemma_read_compound_well_formed(bytes, pos);
    }
}

/// The elements of a list that was read are as many as its count says,
/// unnamed, all of the list's element type, and well-formed.
pub proof fn lemma_read_list_well_formed(bytes: Seq<u8>, pos: int)
    ensures
        read_list(bytes, pos).outcome matches Ok(items) ==> {
            &&& items.len() == if int_value(bytes.subrange(pos + 1, pos + 5)) > 0 {
                int_value(bytes.subrange(pos + 1, pos + 5)) as int
            } else {
                0
            }
            &&& forall|i: int|
                0 <= i < items.len() ==> {
                    &&& (#[trigger] items[i]).name() == Seq::<char>::empty()
                    &&& items[i].type_id() == byte_value(bytes[pos])
                    &&& items[i] !is End
                    &&& well_formed(items[i])
                }
        },
    decreases bytes.len() - pos, 1int,
{
    let id = read_byte(bytes, pos);
    if id.outcome is Ok {
        assert(bytes.subrange(pos, pos + 1)[0] == bytes[pos]);
        let count = read_int(bytes, id.pos);
        if count.outcome is Ok {
            lemma_read_elements_well_formed(
                bytes,
                count.pos,
                id.outcome->Ok_0,
                count.outcome->Ok_0 as int,
            );
        }
    }
}

/// Elements that were read are as many as were asked for, unnamed, all of
/// the type asked for, and well-formed.
pub proof fn lemma_read_elements_well_formed(bytes: Seq<u8>, pos: int, id: i8, count: int)
    ensures
        read_elements(bytes, pos, id, count).outcome matches Ok(items) ==> {
            &&& items.len() == if count > 0 {
                count
            } else {
                0
            }
            &&& forall|i: int|
                0 <= i < items.len() ==> {
                    &&& (#[trigger] items[i]).name() == Seq::<char>::empty()
                    &&& items[i].type_id() == id
                    &&& items[i] !is End
                    &&& well_formed(items[i])
                }
        },
    decreases bytes.len() - pos, 3int,
{
    if count > 0 {
        let first = read_payload(bytes, pos, id, Seq::empty());
        assert(encode_utf8(Seq::<char>::empty()).len() == 0);
        lemma_read_payload_well_formed(bytes, pos, id, Seq::empty());
        if first.outcome is Ok && advanced(bytes, pos, first.pos) {
            lemma_read_elements_well_formed(bytes, first.pos, id, count - 1);
        }
    }
}

/// The children of a compound that was read are well-formed, and none of
/// them is `End`.
pub proof fn lemma_read_compound_well_formed(bytes: Seq<u8>, pos: int)
    ensures
        read_compound(bytes, pos).outcome matches Ok(children) ==> forall|i: int|
            0 <= i < children.len() ==> {
                &&& (#[trigger] children[i]) !is End
                &&& well_formed(children[i])
            },
    decreases bytes.len() - pos, 1int,
{
    let first = read_tag(bytes, pos);
    lemma_read_tag_well_formed(bytes, pos);
    if first.outcome is Ok && first.outcome->Ok_0 !is End && advanced(bytes, pos, first.pos) {
        lemma_read_compound_well_formed(bytes, first.pos);
    }
}

/// A tag that was read behind its id is well-formed and of that type.
pub proof fn lemma_read_named_well_formed(bytes: Seq<u8>, pos: int, id: i8)
    ensures
        read_named(bytes, pos, id).outcome matches Ok(tag) ==> well_formed(tag) && tag.type_id()
            == id,
    decreases bytes.len() - pos, 3int,
{
    let name = read_string(bytes, pos);
    lemma_read_string_fits(bytes, pos);
    if name.outcome is Ok {
        lemma_read_payload_well_formed(bytes, name.pos, id, name.outcome->Ok_0);
    }
}

/// A tag that was read is well-formed.
pub proof fn lemma_read_tag_well_formed(bytes: Seq<u8>, pos: int)
    ensures
        read_tag(bytes, pos).outcome matches Ok(tag) ==> well_formed(tag),
    decreases bytes.len() - pos, 0int,
{
    let id = read_byte(bytes, pos);
    assert(encode_utf8(Seq::<char>::empty()).len() == 0);
    if id.outcome is Ok {
        let type_id = id.outcome->Ok_0;
        if 1 <= type_id <= 12 {
            lemma_read_named_well_formed(bytes, id.pos, type_id);
        }
    }
}

/// Every tree that decoding gives is well-formed: in each list the
/// elements are unnamed and of one type, and no compound holds an `End`.
pub proof fn lemma_decoded_is_well_formed(bytes: Seq<u8>)
    ensures
        decode(bytes) matches Ok(tag) ==> well_formed(tag),
{
    lemma_read_tag_well_formed(bytes, 0);
}

/// Bytes that were read are read alike in every byte string that begins
/// with the one they were read from.
pub proof fn lemma_read_bytes_in_longer(bytes: Seq<u8>, longer: Seq<u8>, pos: int, width: int)
    requires
        bytes.is_prefix_of(longer),
        read_bytes(bytes, pos, width).outcome is Ok,
    ensures
        read_bytes(longer, pos, width) == read_bytes(bytes, pos, width),
{
    assert(longer.subrange(pos, pos + width) == bytes.subrange(pos, pos + width));
}

/// A text that was read is read alike in every byte string that begins
/// with the one it was read from.
pub proof fn lemma_read_string_in_longer(bytes: Seq<u8>, longer: Seq<u8>, pos: int)
    requires
        bytes.is_prefix_of(longer),
        read_string(bytes, pos).outcome is Ok,
    ensures
        read_string(longer, pos) == read_string(bytes, pos),
{
    lemma_read_bytes_in_longer(bytes, longer, pos, 2);
    lemma_read_bytes_in_longer(bytes, longer, pos + 2, read_short(bytes, pos).outcome->Ok_0 as int);
}

/// A value that was read is read alike in every byte string that begins
/// with the one it was read from.
pub proof fn lemma_read_payload_in_longer(
    bytes: Seq<u8>,
    longer: Seq<u8>,
    pos: int,
    id: i8,
    name: Seq<char>,
)
    requires
        bytes.is_prefix_of(longer),
        read_payload(bytes, pos, id, name).outcome is Ok,
    ensures
        read_payload(longer, pos, id, name) == read_payload(bytes, pos, id, name),
    decreases bytes.len() - pos, 2int,
{
    if id == 1 {
        lemma_read_bytes_in_longer(bytes, longer, pos, 1);
    } else if id == 2 {
        lemma_read_bytes_in_longer(bytes, longer, pos, 2);
    } else if id == 3 || id == 5 {
        lemma_read_bytes_in_longer(bytes, longer, pos, 4);
    } else if id == 4 || id == 6 {
        lemma_read_bytes_in_longer(bytes, longer, pos, 8);
    } else if id == 7 {
        lemma_read_bytes_in_longer(bytes, longer, pos, 4);
        let n = read_int(bytes, pos).outcome->Ok_0;
        if n > 0 {
            lemma_read_bytes_in_longer(bytes, longer, pos + 4, n as int);
        }
    } else if id == 8 {
        lemma_read_string_in_longer(bytes, longer, pos);
    } else if id == 9 {
        lemma_read_list_in_longer(bytes, longer, pos);
    } else if id == 10 {
        lemma_read_compound_in_longer(bytes, longer, pos);
    } else if id == 11 {
        lemma_read_bytes_in_longer(bytes, longer, pos, 4);
        let n = read_int(bytes, pos).outcome->Ok_0;
        if n > 0 {
            let start = pos + 4;
            lemma_read_bytes_in_longer(bytes, longer, start, 4 * n);
            assert forall|i: int| 0 <= i < n implies #[trigger] int_at(longer, start, i) == int_at(
                bytes,
                start,
                i,
            ) by {
                assert(longer.subrange(start + 4 * i, start + 4 * i + 4) == bytes.subrange(
                    start + 4 * i,
                    start + 4 * i + 4,
                ));
            }
            assert(Seq::new(n as nat, |i: int| int_at(longer, start, i)) == Seq::new(
                n as nat,
                |i: int| int_at(bytes, start, i),
            ));
        }
    } else if id == 12 {
        lemma_read_bytes_in_longer(bytes, longer, pos, 4);
        let n = read_int(bytes, pos).outcome->Ok_0;
        if n > 0 {
            let start = pos + 4;
            lemma_read_bytes_in_longer(bytes, longer, start, 8 * n);
            assert forall|i: int| 0 <= i < n implies #[trigger] long_at(longer, start, i) == long_at(
                bytes,
                start,
                i,
            ) by {
                assert(longer.subrange(start + 8 * i, start + 8 * i + 8) == bytes.subrange(
                    start + 8 * i,
                    start + 8 * i + 8,
                ));
            }
            assert(Seq::new(n as nat, |i: int| long_at(longer, start, i)) == Seq::new(
                n as nat,
                |i: int| long_at(bytes, start, i),
            ));
        }
    }
}

/// The elements of a list that were read are read alike in every byte
/// string that begins with the one they were read from.
pub proof fn lemma_read_list_in_longer(bytes: Seq<u8>, longer: Seq<u8>, pos: int)
    requires
        bytes.is_prefix_of(longer),
        read_list(bytes, pos).outcome is Ok,
    ensures
        read_list(longer, pos) == read_list(bytes, pos),
    decreases bytes.len() - pos, 1int,
{
    lemma_read_bytes_in_longer(bytes, longer, pos, 1);
    lemma_read_bytes_in_longer(bytes, longer, pos + 1, 4);
    lemma_read_elements_in_longer(
        bytes,
        longer,
        pos + 5,
        read_byte(bytes, pos).outcome->Ok_0,
        read_int(bytes, pos + 1).outcome->Ok_0 as int,
    );
}

/// Elements that were read are read alike in every byte string that
/// begins with the one they were read from.
pub proof fn lemma_read_elements_in_longer(
    bytes: Seq<u8>,
    longer: Seq<u8>,
    pos: int,
    id: i8,
    count: int,
)
    requires
        bytes.is_prefix_of(longer),
        read_elements(bytes, pos, id, count).outcome is Ok,
    ensures
        read_elements(longer, pos, id, count) == read_elements(bytes, pos, id, count),
    decreases bytes.len() - pos, 3int,
{
    if count > 0 {
        let first = read_payload(bytes, pos, id, Seq::empty());
        lemma_read_payload_in_longer(bytes, longer, pos, id, Seq::empty());
        lemma_read_elements_in_longer(bytes, longer, first.pos, id, count - 1);
    }
}

/// The children of a compound that were read are read alike in every byte
/// string that begins with the one they were read from.
pub proof fn lemma_read_compound_in_longer(bytes: Seq<u8>, longer: Seq<u8>, pos: int)
    requires
        bytes.is_prefix_of(longer),
        read_compound(bytes, pos).outcome is Ok,
    ensures
        read_compound(longer, pos) == read_compound(bytes, pos),
    decreases bytes.len() - pos, 1int,
{
    let first = read_tag(bytes, pos);
    lemma_read_tag_in_longer(bytes, longer, pos);
    if first.outcome->Ok_0 !is End {
        lemma_read_compound_in_longer(bytes, longer, first.pos);
    }
}

/// A tag that was read behind its id is read alike in every byte string
/// that begins with the one it was read from.
pub proof fn lemma_read_named_in_longer(bytes: Seq<u8>, longer: Seq<u8>, pos: int, id: i8)
    requires
        bytes.is_prefix_of(longer),
        read_named(bytes, pos, id).outcome is Ok,
    ensures
        read_named(longer, pos, id) == read_named(bytes, pos, id),
    decreases bytes.len() - pos, 3int,
{
    let name = read_string(bytes, pos);
    lemma_read_string_in_longer(bytes, longer, pos);
    lemma_read_payload_in_longer(bytes, longer, name.pos, id, name.outcome->Ok_0);
}

/// A tag that was read is read alike in every byte string that begins
/// with the one it was read from: no reader looks behind the place where
/// it ends.
pub proof fn lemma_read_tag_in_longer(bytes: Seq<u8>, longer: Seq<u8>, pos: int)
    requires
        bytes.is_prefix_of(longer),
        read_tag(bytes, pos).outcome is Ok,
    ensures
        read_tag(longer, pos) == read_tag(bytes, pos),
    decreases bytes.len() - pos, 0int,
{
    lemma_read_bytes_in_longer(bytes, longer, pos, 1);
    let type_id = read_byte(bytes, pos).outcome->Ok_0;
    if 1 <= type_id <= 12 {
        lemma_read_named_in_longer(bytes, longer, pos + 1, type_id);
    }
}

/// Bytes behind the root tag are ignored: where bytes decode, they decode
/// to the same tree with anything appended.
pub proof fn lemma_trailing_bytes_are_ignored(bytes: Seq<u8>, rest: Seq<u8>)
    requires
        decode(bytes) is Ok,
    ensures
        decode(bytes + rest) == decode(bytes),
{
    assert((bytes + rest).subrange(0, bytes.len() as int) == bytes);
    lemma_read_tag_in_longer(bytes, bytes + rest, 0);
}

} // verus!
