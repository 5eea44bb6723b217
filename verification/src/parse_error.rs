use vstd::prelude::*;

verus! {

/// Everything that can go wrong while decoding a byte stream or querying a
/// decoded tree.
#[derive(Debug, PartialEq, Eq)]
pub enum NbtParseError {
    /// The bytes of a name or of a string value are not valid UTF-8.
    StringUtf8Error,
    /// The input ended before the value that was being read was complete.
    EndOfData,
    /// A type id outside the known range stood where a tag or a list
    /// element type was expected.
    UnknownNBT(i8),
    /// A compound has no child of the requested name.
    NoSuchValue(String),
    /// A typed accessor found a child of another type: the type asked for,
    /// then the type found.
    WrongType(String, String),
    /// A named lookup was made on a tag that is not a compound; holds the
    /// type of that tag.
    TriedGettingFromNonCompound(String),
    /// The input is neither a gzip nor a zlib stream.
    DecompressionError,
}

/// The mathematical value of an [`NbtParseError`]: text is a sequence of
/// characters.
pub enum ErrorModel {
    StringUtf8Error,
    EndOfData,
    UnknownNBT(i8),
    NoSuchValue(Seq<char>),
    WrongType(Seq<char>, Seq<char>),
    TriedGettingFromNonCompound(Seq<char>),
    DecompressionError,
}

impl View for NbtParseError {
    type V = ErrorModel;

    open spec fn view(&self) -> ErrorModel {
        match self {
            NbtParseError::StringUtf8Error => ErrorModel::StringUtf8Error,
            NbtParseError::EndOfData => ErrorModel::EndOfData,
            NbtParseError::UnknownNBT(id) => ErrorModel::UnknownNBT(*id),
            NbtParseError::NoSuchValue(name) => ErrorModel::NoSuchValue(name@),
            NbtParseError::WrongType(expected, actual) => ErrorModel::WrongType(
                expected@,
                actual@,
            ),
            NbtParseError::TriedGettingFromNonCompound(actual) => {
                ErrorModel::TriedGettingFromNonCompound(actual@)
            },
            NbtParseError::DecompressionError => ErrorModel::DecompressionError,
        }
    }
}

impl Clone for NbtParseError {
    fn clone(&self) -> (res: NbtParseError)
        ensures
            res@ == self@,
    {
        match self {
            NbtParseError::StringUtf8Error => NbtParseError::StringUtf8Error,
            NbtParseError::EndOfData => NbtParseError::EndOfData,
            NbtParseError::UnknownNBT(id) => NbtParseError::UnknownNBT(*id),
            NbtParseError::NoSuchValue(name) => NbtParseError::NoSuchValue(name.clone()),
            NbtParseError::WrongType(expected, actual) => NbtParseError::WrongType(
                expected.clone(),
                actual.clone(),
            ),
            NbtParseError::TriedGettingFromNonCompound(actual) => {
                NbtParseError::TriedGettingFromNonCompound(actual.clone())
            },
            NbtParseError::DecompressionError => NbtParseError::DecompressionError,
        }
    }
}

} // verus!
