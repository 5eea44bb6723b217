//! A reader over a borrowed byte string: the bytes and a position in them.

use vstd::prelude::*;

use crate::parse_error::NbtParseError;
use crate::types::{models, NbtTag, TagModel};
use crate::wire::{read_bytes, Step};

verus! {

/// A result and the position reached, as a step.
pub open spec fn step_of<T>(res: Result<T, NbtParseError>, pos: int) -> Step<T> {
    Step {
        outcome: match res {
            Ok(value) => Ok(value),
            Err(e) => Err(e@),
        },
        pos,
    }
}

/// A result and the position reached, as a step over the value's view.
pub open spec fn step_of_view<T: View>(res: Result<T, NbtParseError>, pos: int) -> Step<T::V> {
    Step {
        outcome: match res {
            Ok(value) => Ok(value@),
            Err(e) => Err(e@),
        },
        pos,
    }
}

/// A result that holds tags and the position reached, as a step over the
/// tags' values.
pub open spec fn step_of_tags(res: Result<Vec<NbtTag>, NbtParseError>, pos: int) -> Step<
    Seq<TagModel>,
> {
    Step {
        outcome: match res {
            Ok(tags) => Ok(models(tags@)),
            Err(e) => Err(e@),
        },
        pos,
    }
}

/// The bytes being decoded and the position of the next unread byte.
pub struct ByteReader<'a> {
    data: &'a [u8],
    pos: usize,
}

impl<'a> ByteReader<'a> {
    /// The bytes that the reader goes over; they never change.
    pub closed spec fn bytes(&self) -> Seq<u8> {
        self.data@
    }

    /// The position of the next unread byte.
    pub closed spec fn pos(&self) -> int {
        self.pos as int
    }

    /// The position is within the bytes or at their end.
    #[verifier::type_invariant]
    pub open spec fn in_bounds(&self) -> bool {
        0 <= self.pos() <= self.bytes().len()
    }

    /// Whether this reader is `before` after some reads: it goes over the
    /// same bytes and stands at the same place or further on, within them.
    pub open spec fn follows(&self, before: &Self) -> bool {
        &&& self.bytes() == before.bytes()
        &&& 0 <= before.pos() <= self.pos() <= self.bytes().len()
    }

    /// A reader at the start of `data`.
    pub fn new(data: &'a [u8]) -> (reader: Self)
        ensures
            reader.bytes() == data@,
            reader.pos() == 0,
    {
        ByteReader { data, pos: 0 }
    }

    /// The position of the next unread byte, which is within the bytes or
    /// at their end.
    pub fn position(&self) -> (p: usize)
        ensures
            p == self.pos(),
            p <= self.bytes().len(),
    {
        proof {
            use_type_invariant(self);
        }
        self.pos
    }

    /// The number of bytes not yet read.
    pub fn remaining(&self) -> (n: usize)
        ensures
            n == self.bytes().len() - self.pos(),
    {
        proof {
            use_type_invariant(self);
        }
        self.data.len() - self.pos
    }

    /// Moves to the end of the bytes.
    pub fn skip_to_end(&mut self)
        ensures
            final(self).follows(old(self)),
            final(self).pos() == final(self).bytes().len(),
    {
        proof {
            use_type_invariant(&*self);
        }
        self.pos = self.data.len();
    }

    /// Reads the next `width` bytes. Where fewer are left the reader moves
    /// to the end and the read fails with `EndOfData`.
    pub fn take(&mut self, width: usize) -> (res: Result<&'a [u8], NbtParseError>)
        ensures
            final(self).follows(old(self)),
            read_bytes(old(self).bytes(), old(self).pos(), width as int) == step_of_view(
                res,
                final(self).pos(),
            ),
    {
        proof {
            use_type_invariant(&*self);
        }
        let data: &'a [u8] = self.data;
        let start = self.pos;
        if width <= data.len() - start {
            self.pos = start + width;
            Ok(&data[start..start + width])
        } else {
            self.pos = data.len();
            Err(NbtParseError::EndOfData)
        }
    }
}

} // verus!
