//! The wire format, as mathematics: what a reader that stands at a position
//! of a byte string finds there, and where it stands afterwards.
//!
//! Every multi-byte number is big-endian. A tag is one byte of type id, a
//! name (two bytes of length, then UTF-8), and a value whose layout the id
//! decides. The id 0 stands alone and closes a compound.

use vstd::prelude::*;
use vstd::utf8::{decode_utf8, valid_utf8};

use crate::parse_error::ErrorModel;
use crate::types::TagModel;

verus! {

/// What reading one item gives: the item or the error, and the position at
/// which the reader stands afterwards. A failed read stops where the failure
/// was found: at the end of the bytes when they ran out.
pub struct Step<T> {
    pub outcome: Result<T, ErrorModel>,
    pub pos: int,
}

/// The unsigned number that a byte string spells in big-endian order.
pub open spec fn be_value(bytes: Seq<u8>) -> nat
    decreases bytes.len(),
{
    if bytes.len() == 0 {
        0
    } else {
        be_value(bytes.drop_last()) * 256 + bytes.last() as nat
    }
}

/// The number that `value` stands for in two's complement, where patterns
/// range over `0..modulus`.
pub open spec fn signed(value: int, modulus: int) -> int {
    if 2 * value < modulus {
        value
    } else {
        value - modulus
    }
}

/// The 8-bit signed integer with the bit pattern of `byte`.
pub open spec fn byte_value(byte: u8) -> i8 {
    signed(byte as int, 0x100) as i8
}

/// The 16-bit signed integer that two bytes spell.
pub open spec fn short_value(bytes: Seq<u8>) -> i16 {
    signed(be_value(bytes) as int, 0x1_0000) as i16
}

/// The 32-bit signed integer that four bytes spell.
pub open spec fn int_value(bytes: Seq<u8>) -> i32 {
    signed(be_value(bytes) as int, 0x1_0000_0000) as i32
}

/// The 64-bit signed integer that eight bytes spell.
pub open spec fn long_value(bytes: Seq<u8>) -> i64 {
    signed(be_value(bytes) as int, 0x1_0000_0000_0000_0000) as i64
}

/// The next `width` bytes, or `EndOfData` where fewer are left.
pub open spec fn read_bytes(bytes: Seq<u8>, pos: int, width: int) -> Step<Seq<u8>> {
    if 0 <= pos && 0 <= width && pos + width <= bytes.len() {
        Step { outcome: Ok(bytes.subrange(pos, pos + width)), pos: pos + width }
    } else {
        Step { outcome: Err(ErrorModel::EndOfData), pos: bytes.len() as int }
    }
}

/// One byte as it stands.
pub open spec fn read_u8(bytes: Seq<u8>, pos: int) -> Step<u8> {
    let raw = read_bytes(bytes, pos, 1);
    Step {
        outcome: match raw.outcome {
            Ok(b) => Ok(b[0]),
            Err(e) => Err(e),
        },
        pos: raw.pos,
    }
}

/// One byte as a signed integer.
pub open spec fn read_byte(bytes: Seq<u8>, pos: int) -> Step<i8> {
    let raw = read_bytes(bytes, pos, 1);
    Step {
        outcome: match raw.outcome {
            Ok(b) => Ok(byte_value(b[0])),
            Err(e) => Err(e),
        },
        pos: raw.pos,
    }
}

/// Two bytes as a signed integer.
pub open spec fn read_short(bytes: Seq<u8>, pos: int) -> Step<i16> {
    let raw = read_bytes(bytes, pos, 2);
    Step {
        outcome: match raw.outcome {
            Ok(b) => Ok(short_value(b)),
            Err(e) => Err(e),
        },
        pos: raw.pos,
    }
}

/// Four bytes as a signed integer.
pub open spec fn read_int(bytes: Seq<u8>, pos: int) -> Step<i32> {
    let raw = read_bytes(bytes, pos, 4);
    Step {
        outcome: match raw.outcome {
            Ok(b) => Ok(int_value(b)),
            Err(e) => Err(e),
        },
        pos: raw.pos,
    }
}

/// Eight bytes as a signed integer.
pub open spec fn read_long(bytes: Seq<u8>, pos: int) -> Step<i64> {
    let raw = read_bytes(bytes, pos, 8);
    Step {
        outcome: match raw.outcome {
            Ok(b) => Ok(long_value(b)),
            Err(e) => Err(e),
        },
        pos: raw.pos,
    }
}

/// Four bytes as the bit pattern of a 32-bit IEEE 754 number.
pub open spec fn read_float(bytes: Seq<u8>, pos: int) -> Step<u32> {
    let raw = read_bytes(bytes, pos, 4);
    Step {
        outcome: match raw.outcome {
            Ok(b) => Ok(be_value(b) as u32),
            Err(e) => Err(e),
        },
        pos: raw.pos,
    }
}

/// Eight bytes as the bit pattern of a 64-bit IEEE 754 number.
pub open spec fn read_double(bytes: Seq<u8>, pos: int) -> Step<u64> {
    let raw = read_bytes(bytes, pos, 8);
    Step {
        outcome: match raw.outcome {
            Ok(b) => Ok(be_value(b) as u64),
            Err(e) => Err(e),
        },
        pos: raw.pos,
    }
}

/// A text: its length in bytes as a short, then that many bytes of UTF-8.
/// A negative length, or one that reaches past the end, is `EndOfData`;
/// only bytes that are all there are examined as UTF-8.
pub open spec fn read_string(bytes: Seq<u8>, pos: int) -> Step<Seq<char>> {
    let len = read_short(bytes, pos);
    match len.outcome {
        Err(e) => Step { outcome: Err(e), pos: len.pos },
        Ok(n) => {
            let text = read_bytes(bytes, len.pos, n as int);
            match text.outcome {
                Err(e) => Step { outcome: Err(e), pos: text.pos },
                Ok(b) => if valid_utf8(b) {
                    Step { outcome: Ok(decode_utf8(b)), pos: text.pos }
                } else {
                    Step { outcome: Err(ErrorModel::StringUtf8Error), pos: text.pos }
                },
            }
        },
    }
}

/// An array of bytes: the count as an int, then that many bytes. A count of
/// zero or less stands for the empty array.
pub open spec fn read_byte_array(bytes: Seq<u8>, pos: int) -> Step<Seq<i8>> {
    let count = read_int(bytes, pos);
    match count.outcome {
        Err(e) => Step { outcome: Err(e), pos: count.pos },
        Ok(n) => if n <= 0 {
            Step { outcome: Ok(Seq::empty()), pos: count.pos }
        } else {
            let items = read_bytes(bytes, count.pos, n as int);
            Step {
                outcome: match items.outcome {
                    Ok(b) => Ok(Seq::new(b.len(), |i: int| byte_value(b[i]))),
                    Err(e) => Err(e),
                },
                pos: items.pos,
            }
        },
    }
}

/// The `i`-th of the ints that stand one after another from `pos` on.
pub open spec fn int_at(bytes: Seq<u8>, pos: int, i: int) -> i32 {
    int_value(bytes.subrange(pos + 4 * i, pos + 4 * i + 4))
}

/// The `i`-th of the longs that stand one after another from `pos` on.
pub open spec fn long_at(bytes: Seq<u8>, pos: int, i: int) -> i64 {
    long_value(bytes.subrange(pos + 8 * i, pos + 8 * i + 8))
}

/// An array of ints: the count as an int, then that many ints. A count of
/// zero or less stands for the empty array.
pub open spec fn read_int_array(bytes: Seq<u8>, pos: int) -> Step<Seq<i32>> {
    let count = read_int(bytes, pos);
    match count.outcome {
        Err(e) => Step { outcome: Err(e), pos: count.pos },
        Ok(n) => if n <= 0 {
            Step { outcome: Ok(Seq::empty()), pos: count.pos }
        } else {
            let items = read_bytes(bytes, count.pos, 4 * n);
            Step {
                outcome: match items.outcome {
                    Ok(_) => Ok(Seq::new(n as nat, |i: int| int_at(bytes, count.pos, i))),
                    Err(e) => Err(e),
                },
                pos: items.pos,
            }
        },
    }
}

/// An array of longs: the count as an int, then that many longs. A count of
/// zero or less stands for the empty array.
pub open spec fn read_long_array(bytes: Seq<u8>, pos: int) -> Step<Seq<i64>> {
    let count = read_int(bytes, pos);
    match count.outcome {
        Err(e) => Step { outcome: Err(e), pos: count.pos },
        Ok(n) => if n <= 0 {
            Step { outcome: Ok(Seq::empty()), pos: count.pos }
        } else {
            let items = read_bytes(bytes, count.pos, 8 * n);
            Step {
                outcome: match items.outcome {
                    Ok(_) => Ok(Seq::new(n as nat, |i: int| long_at(bytes, count.pos, i))),
                    Err(e) => Err(e),
                },
                pos: items.pos,
            }
        },
    }
}

/// `step` with the tags `done` placed before those that it read.
pub open spec fn after(done: Seq<TagModel>, step: Step<Seq<TagModel>>) -> Step<Seq<TagModel>> {
    Step {
        outcome: match step.outcome {
            Ok(items) => Ok(done + items),
            Err(e) => Err(e),
        },
        pos: step.pos,
    }
}

/// Whether a read that began at `pos` ended further on, within the bytes.
/// Every value takes at least one byte, so each successful read of a tag or
/// of a list element does (`lemma_tag_advances`, `lemma_payload_advances`);
/// the readers below ask for it where they go on behind such a read, which
/// makes them well-founded.
pub open spec fn advanced(bytes: Seq<u8>, pos: int, next: int) -> bool {
    pos < next <= bytes.len()
}

/// The value of a tag of type `id`, made into a tag named `name`. An id
/// that names no type with a value is `UnknownNBT`.
pub open spec fn read_payload(bytes: Seq<u8>, pos: int, id: i8, name: Seq<char>) -> Step<TagModel>
    decreases bytes.len() - pos, 2int,
{
    if id == 1 {
        let v = read_byte(bytes, pos);
        Step {
            outcome: match v.outcome {
                Ok(x) => Ok(TagModel::Byte(name, x)),
                Err(e) => Err(e),
            },
            pos: v.pos,
        }
    } else if id == 2 {
        let v = read_short(bytes, pos);
        Step {
            outcome: match v.outcome {
                Ok(x) => Ok(TagModel::Short(name, x)),
                Err(e) => Err(e),
            },
            pos: v.pos,
        }
    } else if id == 3 {
        let v = read_int(bytes, pos);
        Step {
            outcome: match v.outcome {
                Ok(x) => Ok(TagModel::Int(name, x)),
                Err(e) => Err(e),
            },
            pos: v.pos,
        }
    } else if id == 4 {
        let v = read_long(bytes, pos);
        Step {
            outcome: match v.outcome {
                Ok(x) => Ok(TagModel::Long(name, x)),
                Err(e) => Err(e),
            },
            pos: v.pos,
        }
    } else if id == 5 {
        let v = read_float(bytes, pos);
        Step {
            outcome: match v.outcome {
                Ok(x) => Ok(TagModel::Float(name, x)),
                Err(e) => Err(e),
            },
            pos: v.pos,
        }
    } else if id == 6 {
        let v = read_double(bytes, pos);
        Step {
            outcome: match v.outcome {
                Ok(x) => Ok(TagModel::Double(name, x)),
                Err(e) => Err(e),
            },
            pos: v.pos,
        }
    } else if id == 7 {
        let v = read_byte_array(bytes, pos);
        Step {
            outcome: match v.outcome {
                Ok(x) => Ok(TagModel::ByteArray(name, x)),
                Err(e) => Err(e),
            },
            pos: v.pos,
        }
    } else if id == 8 {
        let v = read_string(bytes, pos);
        Step {
            outcome: match v.outcome {
                Ok(x) => Ok(TagModel::String(name, x)),
                Err(e) => Err(e),
            },
            pos: v.pos,
        }
    } else if id == 9 {
        let v = read_list(bytes, pos);
        Step {
            outcome: match v.outcome {
                Ok(x) => Ok(TagModel::List(name, x)),
                Err(e) => Err(e),
            },
            pos: v.pos,
        }
    } else if id == 10 {
        let v = read_compound(bytes, pos);
        Step {
            outcome: match v.outcome {
                Ok(x) => Ok(TagModel::Compound(name, x)),
                Err(e) => Err(e),
            },
            pos: v.pos,
        }
    } else if id == 11 {
        let v = read_int_array(bytes, pos);
        Step {
            outcome: match v.outcome {
                Ok(x) => Ok(TagModel::IntArray(name, x)),
                Err(e) => Err(e),
            },
            pos: v.pos,
        }
    } else if id == 12 {
        let v = read_long_array(bytes, pos);
        Step {
            outcome: match v.outcome {
                Ok(x) => Ok(TagModel::LongArray(name, x)),
                Err(e) => Err(e),
            },
            pos: v.pos,
        }
    } else {
        Step { outcome: Err(ErrorModel::UnknownNBT(id)), pos }
    }
}

/// The elements of a list: one byte of element type, the count as an int,
/// then that many values of that type.
pub open spec fn read_list(bytes: Seq<u8>, pos: int) -> Step<Seq<TagModel>>
    decreases bytes.len() - pos, 1int,
{
    let id = read_byte(bytes, pos);
    match id.outcome {
        Err(e) => Step { outcome: Err(e), pos: id.pos },
        Ok(element_id) => {
            let count = read_int(bytes, id.pos);
            match count.outcome {
                Err(e) => Step { outcome: Err(e), pos: count.pos },
                Ok(n) => read_elements(bytes, count.pos, element_id, n as int),
            }
        },
    }
}

/// `count` values of type `id`, each made into a tag with the empty name.
/// A count of zero or less reads nothing, whatever the id.
pub open spec fn read_elements(bytes: Seq<u8>, pos: int, id: i8, count: int) -> Step<
    Seq<TagModel>,
>
    decreases bytes.len() - pos, 3int,
{
    if count <= 0 {
        Step { outcome: Ok(Seq::empty()), pos }
    } else {
        let first = read_payload(bytes, pos, id, Seq::empty());
        match first.outcome {
            Err(e) => Step { outcome: Err(e), pos: first.pos },
            Ok(tag) => if advanced(bytes, pos, first.pos) {
                after(seq![tag], read_elements(bytes, first.pos, id, count - 1))
            } else {
                Step { outcome: Err(ErrorModel::EndOfData), pos: first.pos }
            },
        }
    }
}

/// The children of a compound: tags one after another up to the `End` that
/// closes them, which is read and left out.
pub open spec fn read_compound(bytes: Seq<u8>, pos: int) -> Step<Seq<TagModel>>
    decreases bytes.len() - pos, 1int,
{
    let first = read_tag(bytes, pos);
    match first.outcome {
        Err(e) => Step { outcome: Err(e), pos: first.pos },
        Ok(TagModel::End) => Step { outcome: Ok(Seq::empty()), pos: first.pos },
        Ok(tag) => if advanced(bytes, pos, first.pos) {
            after(seq![tag], read_compound(bytes, first.pos))
        } else {
            Step { outcome: Err(ErrorModel::EndOfData), pos: first.pos }
        },
    }
}

/// A tag of type `id` behind its id: the name, then the value.
pub open spec fn read_named(bytes: Seq<u8>, pos: int, id: i8) -> Step<TagModel>
    decreases bytes.len() - pos, 3int,
{
    let name = read_string(bytes, pos);
    match name.outcome {
        Err(e) => Step { outcome: Err(e), pos: name.pos },
        Ok(text) => read_payload(bytes, name.pos, id, text),
    }
}

/// A whole tag: the type id, then nothing more for `End`, and the name and
/// the value for the twelve other types. Any other id is `UnknownNBT`.
pub open spec fn read_tag(bytes: Seq<u8>, pos: int) -> Step<TagModel>
    decreases bytes.len() - pos, 0int,
{
    let id = read_byte(bytes, pos);
    match id.outcome {
        Err(e) => Step { outcome: Err(e), pos: id.pos },
        Ok(type_id) => if type_id == 0 {
            Step { outcome: Ok(TagModel::End), pos: id.pos }
        } else if 1 <= type_id <= 12 {
            read_named(bytes, id.pos, type_id)
        } else {
            Step { outcome: Err(ErrorModel::UnknownNBT(type_id)), pos: id.pos }
        },
    }
}

/// What decoding a whole byte string gives: the tag that stands at its
/// start. Bytes behind that tag are not looked at.
pub open spec fn decode(bytes: Seq<u8>) -> Result<TagModel, ErrorModel> {
    read_tag(bytes, 0).outcome
}

/// A value that was read ends behind the place where it began, within the
/// bytes.
pub proof fn lemma_payload_advances(bytes: Seq<u8>, pos: int, id: i8, name: Seq<char>)
    ensures
        read_payload(bytes, pos, id, name).outcome is Ok ==> advanced(
            bytes,
            pos,
            read_payload(bytes, pos, id, name).pos,
        ),
    decreases bytes.len() - pos, 2int,
{
    if id == 9 {
        lemma_list_advances(bytes, pos);
    } else if id == 10 {
        lemma_compound_advances(bytes, pos);
    }
}

/// The elements of a list that were read end behind the place where the
/// list's value began, within the bytes.
pub proof fn lemma_list_advances(bytes: Seq<u8>, pos: int)
    ensures
        read_list(bytes, pos).outcome is Ok ==> advanced(bytes, pos, read_list(bytes, pos).pos),
    decreases bytes.len() - pos, 1int,
{
    let id = read_byte(bytes, pos);
    if id.outcome is Ok {
        let count = read_int(bytes, id.pos);
        if count.outcome is Ok {
            lemma_elements_advance(bytes, count.pos, id.outcome->Ok_0, count.outcome->Ok_0 as int);
        }
    }
}

/// Elements that were read from a place within the bytes end at that place
/// or behind it, within the bytes.
pub proof fn lemma_elements_advance(bytes: Seq<u8>, pos: int, id: i8, count: int)
    requires
        0 <= pos <= bytes.len(),
    ensures
        read_elements(bytes, pos, id, count).outcome is Ok ==> pos <= read_elements(
            bytes,
            pos,
            id,
            count,
        ).pos <= bytes.len(),
    decreases bytes.len() - pos, 3int,
{
    if count > 0 {
        let first = read_payload(bytes, pos, id, Seq::empty());
        if first.outcome is Ok && advanced(bytes, pos, first.pos) {
            lemma_elements_advance(bytes, first.pos, id, count - 1);
        }
    }
}

/// The children of a compound that were read end behind the place where
/// they began, within the bytes.
pub proof fn lemma_compound_advances(bytes: Seq<u8>, pos: int)
    ensures
        read_compound(bytes, pos).outcome is Ok ==> advanced(
            bytes,
            pos,
            read_compound(bytes, pos).pos,
        ),
    decreases bytes.len() - pos, 1int,
{
    let first = read_tag(bytes, pos);
    if first.outcome is Ok && first.outcome->Ok_0 !is End && advanced(bytes, pos, first.pos) {
        lemma_compound_advances(bytes, first.pos);
    }
}

/// A tag that was read behind its id ends behind the place where its name
/// began, within the bytes.
pub proof fn lemma_named_advances(bytes: Seq<u8>, pos: int, id: i8)
    ensures
        read_named(bytes, pos, id).outcome is Ok ==> advanced(
            bytes,
            pos,
            read_named(bytes, pos, id).pos,
        ),
    decreases bytes.len() - pos, 3int,
{
    let name = read_string(bytes, pos);
    if name.outcome is Ok {
        lemma_payload_advances(bytes, name.pos, id, name.outcome->Ok_0);
    }
}

/// A tag that was read ends behind the place where it began, within the
/// bytes: no tag is empty.
pub proof fn lemma_tag_advances(bytes: Seq<u8>, pos: int)
    ensures
        read_tag(bytes, pos).outcome is Ok ==> advanced(bytes, pos, read_tag(bytes, pos).pos),
    decreases bytes.len() - pos, 0int,
{
    let id = read_byte(bytes, pos);
    if id.outcome is Ok {
        let type_id = id.outcome->Ok_0;
        if 1 <= type_id <= 12 {
            lemma_named_advances(bytes, id.pos, type_id);
        }
    }
}

} // verus!
