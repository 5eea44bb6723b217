use vstd::prelude::*;

use crate::parse_error::{ErrorModel, NbtParseError};

verus! {

/// One node of a decoded tree. Every variant but `End` holds the node's name
/// and its value.
#[derive(Debug, PartialEq, Eq)]
pub enum NbtTag {
    /// Closes a compound; never a named value.
    End,
    /// 8-bit signed integer.
    Byte(String, i8),
    /// 16-bit signed integer.
    Short(String, i16),
    /// 32-bit signed integer.
    Int(String, i32),
    /// 64-bit signed integer.
    Long(String, i64),
    /// 32-bit IEEE 754 number, held as its bit pattern.
    Float(String, u32),
    /// 64-bit IEEE 754 number, held as its bit pattern.
    Double(String, u64),
    /// Sequence of 8-bit signed integers.
    ByteArray(String, Vec<i8>),
    /// Text.
    String(String, String),
    /// Sequence of unnamed tags that all have the same type.
    List(String, Vec<NbtTag>),
    /// Sequence of named tags of any type.
    Compound(String, Vec<NbtTag>),
    /// Sequence of 32-bit signed integers.
    IntArray(String, Vec<i32>),
    /// Sequence of 64-bit signed integers.
    LongArray(String, Vec<i64>),
}

/// The mathematical value of an [`NbtTag`].
pub enum TagModel {
    End,
    Byte(Seq<char>, i8),
    Short(Seq<char>, i16),
    Int(Seq<char>, i32),
    Long(Seq<char>, i64),
    Float(Seq<char>, u32),
    Double(Seq<char>, u64),
    ByteArray(Seq<char>, Seq<i8>),
    String(Seq<char>, Seq<char>),
    List(Seq<char>, Seq<TagModel>),
    Compound(Seq<char>, Seq<TagModel>),
    IntArray(Seq<char>, Seq<i32>),
    LongArray(Seq<char>, Seq<i64>),
}

/// The values of a sequence of tags, in order.
pub open spec fn models(tags: Seq<NbtTag>) -> Seq<TagModel>
    decreases tags,
{
    Seq::new(tags.len(), |i: int| if 0 <= i < tags.len() { tags[i]@ } else { TagModel::End })
}

impl View for NbtTag {
    type V = TagModel;

    open spec fn view(&self) -> TagModel
        decreases self,
    {
        match self {
            NbtTag::End => TagModel::End,
            NbtTag::Byte(name, value) => TagModel::Byte(name@, *value),
            NbtTag::Short(name, value) => TagModel::Short(name@, *value),
            NbtTag::Int(name, value) => TagModel::Int(name@, *value),
            NbtTag::Long(name, value) => TagModel::Long(name@, *value),
            NbtTag::Float(name, bits) => TagModel::Float(name@, *bits),
            NbtTag::Double(name, bits) => TagModel::Double(name@, *bits),
            NbtTag::ByteArray(name, items) => TagModel::ByteArray(name@, items@),
            NbtTag::String(name, text) => TagModel::String(name@, text@),
            NbtTag::List(name, items) => TagModel::List(name@, models(items@)),
            NbtTag::Compound(name, children) => TagModel::Compound(name@, models(children@)),
            NbtTag::IntArray(name, items) => TagModel::IntArray(name@, items@),
            NbtTag::LongArray(name, items) => TagModel::LongArray(name@, items@),
        }
    }
}

impl TagModel {
    /// The name of the tag; `End` has none, which reads as the empty text.
    pub open spec fn name(self) -> Seq<char> {
        match self {
            TagModel::End => Seq::empty(),
            TagModel::Byte(name, _) => name,
            TagModel::Short(name, _) => name,
            TagModel::Int(name, _) => name,
            TagModel::Long(name, _) => name,
            TagModel::Float(name, _) => name,
            TagModel::Double(name, _) => name,
            TagModel::ByteArray(name, _) => name,
            TagModel::String(name, _) => name,
            TagModel::List(name, _) => name,
            TagModel::Compound(name, _) => name,
            TagModel::IntArray(name, _) => name,
            TagModel::LongArray(name, _) => name,
        }
    }

    /// The type id that stands for the variant on the wire.
    pub open spec fn type_id(self) -> i8 {
        match self {
            TagModel::End => 0,
            TagModel::Byte(_, _) => 1,
            TagModel::Short(_, _) => 2,
            TagModel::Int(_, _) => 3,
            TagModel::Long(_, _) => 4,
            TagModel::Float(_, _) => 5,
            TagModel::Double(_, _) => 6,
            TagModel::ByteArray(_, _) => 7,
            TagModel::String(_, _) => 8,
            TagModel::List(_, _) => 9,
            TagModel::Compound(_, _) => 10,
            TagModel::IntArray(_, _) => 11,
            TagModel::LongArray(_, _) => 12,
        }
    }

    /// The lower-case English name of the variant.
    pub open spec fn kind_name(self) -> Seq<char> {
        match self {
            TagModel::End => "end"@,
            TagModel::Byte(_, _) => "byte"@,
            TagModel::Short(_, _) => "short"@,
            TagModel::Int(_, _) => "int"@,
            TagModel::Long(_, _) => "long"@,
            TagModel::Float(_, _) => "float"@,
            TagModel::Double(_, _) => "double"@,
            TagModel::ByteArray(_, _) => "byte array"@,
            TagModel::String(_, _) => "string"@,
            TagModel::List(_, _) => "list"@,
            TagModel::Compound(_, _) => "compound"@,
            TagModel::IntArray(_, _) => "int array"@,
            TagModel::LongArray(_, _) => "long array"@,
        }
    }

    /// What a lookup of `name` among the children of this tag gives: the
    /// first child of that name, `NoSuchValue` with the name where a compound
    /// has none, `TriedGettingFromNonCompound` with the type of this tag
    /// where it is no compound.
    pub open spec fn get(self, name: Seq<char>) -> Result<TagModel, ErrorModel> {
        match self {
            TagModel::Compound(_, children) => match find_child(children, name) {
                Some(child) => Ok(child),
                None => Err(ErrorModel::NoSuchValue(name)),
            },
            _ => Err(ErrorModel::TriedGettingFromNonCompound(self.kind_name())),
        }
    }

    /// What a lookup of `name` that asks for the 8-bit integer gives: the value
    /// of the child found, `WrongType` where the child is of another type,
    /// and the error of the lookup where it fails.
    pub open spec fn get_byte(self, name: Seq<char>) -> Result<i8, ErrorModel> {
        match self.get(name) {
            Ok(TagModel::Byte(_, value)) => Ok(value),
            Ok(other) => Err(ErrorModel::WrongType("byte"@, other.kind_name())),
            Err(e) => Err(e),
        }
    }

    /// What a lookup of `name` that asks for the 16-bit integer gives: the value
    /// of the child found, `WrongType` where the child is of another type,
    /// and the error of the lookup where it fails.
    pub open spec fn get_short(self, name: Seq<char>) -> Result<i16, ErrorModel> {
        match self.get(name) {
            Ok(TagModel::Short(_, value)) => Ok(value),
            Ok(other) => Err(ErrorModel::WrongType("short"@, other.kind_name())),
            Err(e) => Err(e),
        }
    }

    /// What a lookup of `name` that asks for the 32-bit integer gives: the value
    /// of the child found, `WrongType` where the child is of another type,
    /// and the error of the lookup where it fails.
    pub open spec fn get_int(self, name: Seq<char>) -> Result<i32, ErrorModel> {
        match self.get(name) {
            Ok(TagModel::Int(_, value)) => Ok(value),
            Ok(other) => Err(ErrorModel::WrongType("int"@, other.kind_name())),
            Err(e) => Err(e),
        }
    }

    /// What a lookup of `name` that asks for the 64-bit integer gives: the value
    /// of the child found, `WrongType` where the child is of another type,
    /// and the error of the lookup where it fails.
    pub open spec fn get_long(self, name: Seq<char>) -> Result<i64, ErrorModel> {
        match self.get(name) {
            Ok(TagModel::Long(_, value)) => Ok(value),
            Ok(other) => Err(ErrorModel::WrongType("long"@, other.kind_name())),
            Err(e) => Err(e),
        }
    }

    /// What a lookup of `name` that asks for the bit pattern of the 32-bit number gives: the value
    /// of the child found, `WrongType` where the child is of another type,
    /// and the error of the lookup where it fails.
    pub open spec fn get_float(self, name: Seq<char>) -> Result<u32, ErrorModel> {
        match self.get(name) {
            Ok(TagModel::Float(_, value)) => Ok(value),
            Ok(other) => Err(ErrorModel::WrongType("float"@, other.kind_name())),
            Err(e) => Err(e),
        }
    }

    /// What a lookup of `name` that asks for the bit pattern of the 64-bit number gives: the value
    /// of the child found, `WrongType` where the child is of another type,
    /// and the error of the lookup where it fails.
    pub open spec fn get_double(self, name: Seq<char>) -> Result<u64, ErrorModel> {
        match self.get(name) {
            Ok(TagModel::Double(_, value)) => Ok(value),
            Ok(other) => Err(ErrorModel::WrongType("double"@, other.kind_name())),
            Err(e) => Err(e),
        }
    }

    /// What a lookup of `name` that asks for the byte array gives: the value
    /// of the child found, `WrongType` where the child is of another type,
    /// and the error of the lookup where it fails.
    pub open spec fn get_byte_array(self, name: Seq<char>) -> Result<Seq<i8>, ErrorModel> {
        match self.get(name) {
            Ok(TagModel::ByteArray(_, value)) => Ok(value),
            Ok(other) => Err(ErrorModel::WrongType("byte array"@, other.kind_name())),
            Err(e) => Err(e),
        }
    }

    /// What a lookup of `name` that asks for the text gives: the value
    /// of the child found, `WrongType` where the child is of another type,
    /// and the error of the lookup where it fails.
    pub open spec fn get_string(self, name: Seq<char>) -> Result<Seq<char>, ErrorModel> {
        match self.get(name) {
            Ok(TagModel::String(_, value)) => Ok(value),
            Ok(other) => Err(ErrorModel::WrongType("string"@, other.kind_name())),
            Err(e) => Err(e),
        }
    }

    /// What a lookup of `name` that asks for the list elements gives: the value
    /// of the child found, `WrongType` where the child is of another type,
    /// and the error of the lookup where it fails.
    pub open spec fn get_list(self, name: Seq<char>) -> Result<Seq<TagModel>, ErrorModel> {
        match self.get(name) {
            Ok(TagModel::List(_, value)) => Ok(value),
            Ok(other) => Err(ErrorModel::WrongType("list"@, other.kind_name())),
            Err(e) => Err(e),
        }
    }

    /// What a lookup of `name` that asks for the children gives: the value
    /// of the child found, `WrongType` where the child is of another type,
    /// and the error of the lookup where it fails.
    pub open spec fn get_compound(self, name: Seq<char>) -> Result<Seq<TagModel>, ErrorModel> {
        match self.get(name) {
            Ok(TagModel::Compound(_, value)) => Ok(value),
            Ok(other) => Err(ErrorModel::WrongType("compound"@, other.kind_name())),
            Err(e) => Err(e),
        }
    }

    /// What a lookup of `name` that asks for the int array gives: the value
    /// of the child found, `WrongType` where the child is of another type,
    /// and the error of the lookup where it fails.
    pub open spec fn get_int_array(self, name: Seq<char>) -> Result<Seq<i32>, ErrorModel> {
        match self.get(name) {
            Ok(TagModel::IntArray(_, value)) => Ok(value),
            Ok(other) => Err(ErrorModel::WrongType("int array"@, other.kind_name())),
            Err(e) => Err(e),
        }
    }

    /// What a lookup of `name` that asks for the long array gives: the value
    /// of the child found, `WrongType` where the child is of another type,
    /// and the error of the lookup where it fails.
    pub open spec fn get_long_array(self, name: Seq<char>) -> Result<Seq<i64>, ErrorModel> {
        match self.get(name) {
            Ok(TagModel::LongArray(_, value)) => Ok(value),
            Ok(other) => Err(ErrorModel::WrongType("long array"@, other.kind_name())),
            Err(e) => Err(e),
        }
    }
}

/// The first of `children` whose name is `name`, if there is one.
pub open spec fn find_child(children: Seq<TagModel>, name: Seq<char>) -> Option<TagModel>
    decreases children.len(),
{
    if children.len() == 0 {
        None
    } else if children[0].name() == name {
        Some(children[0])
    } else {
        find_child(children.drop_first(), name)
    }
}

/// What `find_child` finds is the first child of that name: no child
/// before it has the name, and where it finds none, no child has the name.
pub proof fn lemma_find_child_is_first(children: Seq<TagModel>, name: Seq<char>)
    ensures
        match find_child(children, name) {
            Some(child) => exists|i: int|
                {
                    &&& 0 <= i < children.len()
                    &&& #[trigger] children[i] == child
                    &&& child.name() == name
                    &&& forall|j: int| 0 <= j < i ==> (#[trigger] children[j]).name() != name
                },
            None => forall|i: int| 0 <= i < children.len() ==> (#[trigger] children[i]).name() != name,
        },
    decreases children.len(),
{
    if children.len() > 0 && children[0].name() != name {
        let rest = children.drop_first();
        lemma_find_child_is_first(rest, name);
        assert forall|i: int| 0 <= i < rest.len() implies rest[i] == children[i + 1] by {}
        match find_child(rest, name) {
            Some(child) => {
                let i = choose|i: int|
                    {
                        &&& 0 <= i < rest.len()
                        &&& #[trigger] rest[i] == child
                        &&& child.name() == name
                        &&& forall|j: int| 0 <= j < i ==> (#[trigger] rest[j]).name() != name
                    };
                assert(children[i + 1] == child);
                assert forall|j: int| 0 <= j < i + 1 implies (#[trigger] children[j]).name()
                    != name by {
                    if j > 0 {
                        assert(rest[j - 1] == children[j]);
                    }
                }
            },
            None => {
                assert forall|i: int| 0 <= i < children.len() implies (#[trigger] children[i]).name()
                    != name by {
                    if i > 0 {
                        assert(rest[i - 1] == children[i]);
                    }
                }
            },
        }
    } else if children.len() > 0 {
        assert(children[0] == children[0]);
    }
}

/// A lookup in a compound that has no child of the name fails with
/// `NoSuchValue` and the name, whatever type is asked for.
pub proof fn lemma_missing_name_is_no_such_value(tag: TagModel, name: Seq<char>)
    requires
        tag is Compound,
        forall|i: int|
            0 <= i < tag->Compound_1.len() ==> (#[trigger] tag->Compound_1[i]).name() != name,
    ensures
        tag.get(name) == Err::<TagModel, ErrorModel>(ErrorModel::NoSuchValue(name)),
        tag.get_byte(name) == Err::<i8, ErrorModel>(ErrorModel::NoSuchValue(name)),
        tag.get_short(name) == Err::<i16, ErrorModel>(ErrorModel::NoSuchValue(name)),
        tag.get_int(name) == Err::<i32, ErrorModel>(ErrorModel::NoSuchValue(name)),
        tag.get_long(name) == Err::<i64, ErrorModel>(ErrorModel::NoSuchValue(name)),
        tag.get_float(name) == Err::<u32, ErrorModel>(ErrorModel::NoSuchValue(name)),
        tag.get_double(name) == Err::<u64, ErrorModel>(ErrorModel::NoSuchValue(name)),
        tag.get_byte_array(name) == Err::<Seq<i8>, ErrorModel>(ErrorModel::NoSuchValue(name)),
        tag.get_string(name) == Err::<Seq<char>, ErrorModel>(ErrorModel::NoSuchValue(name)),
        tag.get_list(name) == Err::<Seq<TagModel>, ErrorModel>(ErrorModel::NoSuchValue(name)),
        tag.get_compound(name) == Err::<Seq<TagModel>, ErrorModel>(ErrorModel::NoSuchValue(name)),
        tag.get_int_array(name) == Err::<Seq<i32>, ErrorModel>(ErrorModel::NoSuchValue(name)),
        tag.get_long_array(name) == Err::<Seq<i64>, ErrorModel>(ErrorModel::NoSuchValue(name)),
{
    lemma_find_child_is_first(tag->Compound_1, name);
}

/// A lookup on a tag that is no compound fails with
/// `TriedGettingFromNonCompound` and the type of that tag, whatever type
/// is asked for.
pub proof fn lemma_lookup_outside_compound_is_refused(tag: TagModel, name: Seq<char>)
    requires
        tag !is Compound,
    ensures
        tag.get(name) == Err::<TagModel, ErrorModel>(
            ErrorModel::TriedGettingFromNonCompound(tag.kind_name()),
        ),
        tag.get_byte(name) == Err::<i8, ErrorModel>(
            ErrorModel::TriedGettingFromNonCompound(tag.kind_name()),
        ),
        tag.get_short(name) == Err::<i16, ErrorModel>(
            ErrorModel::TriedGettingFromNonCompound(tag.kind_name()),
        ),
        tag.get_int(name) == Err::<i32, ErrorModel>(
            ErrorModel::TriedGettingFromNonCompound(tag.kind_name()),
        ),
        tag.get_long(name) == Err::<i64, ErrorModel>(
            ErrorModel::TriedGettingFromNonCompound(tag.kind_name()),
        ),
        tag.get_float(name) == Err::<u32, ErrorModel>(
            ErrorModel::TriedGettingFromNonCompound(tag.kind_name()),
        ),
        tag.get_double(name) == Err::<u64, ErrorModel>(
            ErrorModel::TriedGettingFromNonCompound(tag.kind_name()),
        ),
        tag.get_byte_array(name) == Err::<Seq<i8>, ErrorModel>(
            ErrorModel::TriedGettingFromNonCompound(tag.kind_name()),
        ),
        tag.get_string(name) == Err::<Seq<char>, ErrorModel>(
            ErrorModel::TriedGettingFromNonCompound(tag.kind_name()),
        ),
        tag.get_list(name) == Err::<Seq<TagModel>, ErrorModel>(
            ErrorModel::TriedGettingFromNonCompound(tag.kind_name()),
        ),
        tag.get_compound(name) == Err::<Seq<TagModel>, ErrorModel>(
            ErrorModel::TriedGettingFromNonCompound(tag.kind_name()),
        ),
        tag.get_int_array(name) == Err::<Seq<i32>, ErrorModel>(
            ErrorModel::TriedGettingFromNonCompound(tag.kind_name()),
        ),
        tag.get_long_array(name) == Err::<Seq<i64>, ErrorModel>(
            ErrorModel::TriedGettingFromNonCompound(tag.kind_name()),
        ),
{
}

/// A typed lookup that finds a child of another type fails with
/// `WrongType`, the type asked for and the type found.
pub proof fn lemma_child_of_another_type_is_wrong_type(
    tag: TagModel,
    name: Seq<char>,
    child: TagModel,
)
    requires
        tag.get(name) == Ok::<TagModel, ErrorModel>(child),
    ensures
        child !is Byte ==> tag.get_byte(name) == Err::<i8, ErrorModel>(
            ErrorModel::WrongType("byte"@, child.kind_name()),
        ),
        child !is Short ==> tag.get_short(name) == Err::<i16, ErrorModel>(
            ErrorModel::WrongType("short"@, child.kind_name()),
        ),
        child !is Int ==> tag.get_int(name) == Err::<i32, ErrorModel>(
            ErrorModel::WrongType("int"@, child.kind_name()),
        ),
        child !is Long ==> tag.get_long(name) == Err::<i64, ErrorModel>(
            ErrorModel::WrongType("long"@, child.kind_name()),
        ),
        child !is Float ==> tag.get_float(name) == Err::<u32, ErrorModel>(
            ErrorModel::WrongType("float"@, child.kind_name()),
        ),
        child !is Double ==> tag.get_double(name) == Err::<u64, ErrorModel>(
            ErrorModel::WrongType("double"@, child.kind_name()),
        ),
        child !is ByteArray ==> tag.get_byte_array(name) == Err::<Seq<i8>, ErrorModel>(
            ErrorModel::WrongType("byte array"@, child.kind_name()),
        ),
        child !is String ==> tag.get_string(name) == Err::<Seq<char>, ErrorModel>(
            ErrorModel::WrongType("string"@, child.kind_name()),
        ),
        child !is List ==> tag.get_list(name) == Err::<Seq<TagModel>, ErrorModel>(
            ErrorModel::WrongType("list"@, child.kind_name()),
        ),
        child !is Compound ==> tag.get_compound(name) == Err::<Seq<TagModel>, ErrorModel>(
            ErrorModel::WrongType("compound"@, child.kind_name()),
        ),
        child !is IntArray ==> tag.get_int_array(name) == Err::<Seq<i32>, ErrorModel>(
            ErrorModel::WrongType("int array"@, child.kind_name()),
        ),
        child !is LongArray ==> tag.get_long_array(name) == Err::<Seq<i64>, ErrorModel>(
            ErrorModel::WrongType("long array"@, child.kind_name()),
        ),
{
}

/// A typed lookup that finds a child of the type asked for gives the
/// value of that child.
pub proof fn lemma_child_of_the_type_gives_its_value(tag: TagModel, name: Seq<char>, child: TagModel)
    requires
        tag.get(name) == Ok::<TagModel, ErrorModel>(child),
    ensures
        child matches TagModel::Byte(_, value) ==> tag.get_byte(name) == Ok::<i8, ErrorModel>(
            value,
        ),
        child matches TagModel::Short(_, value) ==> tag.get_short(name) == Ok::<i16, ErrorModel>(
            value,
        ),
        child matches TagModel::Int(_, value) ==> tag.get_int(name) == Ok::<i32, ErrorModel>(
            value,
        ),
        child matches TagModel::Long(_, value) ==> tag.get_long(name) == Ok::<i64, ErrorModel>(
            value,
        ),
        child matches TagModel::Float(_, value) ==> tag.get_float(name) == Ok::<u32, ErrorModel>(
            value,
        ),
        child matches TagModel::Double(_, value) ==> tag.get_double(name) == Ok::<u64, ErrorModel>(
            value,
        ),
        child matches TagModel::ByteArray(_, value) ==> tag.get_byte_array(name) == Ok::<Seq<i8>, ErrorModel>(
            value,
        ),
        child matches TagModel::String(_, value) ==> tag.get_string(name) == Ok::<Seq<char>, ErrorModel>(
            value,
        ),
        child matches TagModel::List(_, value) ==> tag.get_list(name) == Ok::<Seq<TagModel>, ErrorModel>(
            value,
        ),
        child matches TagModel::Compound(_, value) ==> tag.get_compound(name) == Ok::<Seq<TagModel>, ErrorModel>(
            value,
        ),
        child matches TagModel::IntArray(_, value) ==> tag.get_int_array(name) == Ok::<Seq<i32>, ErrorModel>(
            value,
        ),
        child matches TagModel::LongArray(_, value) ==> tag.get_long_array(name) == Ok::<Seq<i64>, ErrorModel>(
            value,
        ),
{
}

/// A copy of each tag of `tags`, in order.
fn clone_tags(tags: &Vec<NbtTag>) -> (res: Vec<NbtTag>)
    ensures
        models(res@) == models(tags@),
    decreases tags,
{
    let mut out: Vec<NbtTag> = Vec::new();
    let mut i: usize = 0;
    while i < tags.len()
        invariant
            i <= tags.len(),
            out.len() == i,
            forall|j: int| 0 <= j < i ==> out[j]@ == tags[j]@,
        decreases tags.len() - i,
    {
        out.push(tags[i].clone());
        i += 1;
    }
    out
}

impl Clone for NbtTag {
    fn clone(&self) -> (res: NbtTag)
        ensures
            res@ == self@,
        decreases self,
    {
        match self {
            NbtTag::End => NbtTag::End,
            NbtTag::Byte(name, value) => NbtTag::Byte(name.clone(), *value),
            NbtTag::Short(name, value) => NbtTag::Short(name.clone(), *value),
            NbtTag::Int(name, value) => NbtTag::Int(name.clone(), *value),
            NbtTag::Long(name, value) => NbtTag::Long(name.clone(), *value),
            NbtTag::Float(name, bits) => NbtTag::Float(name.clone(), *bits),
            NbtTag::Double(name, bits) => NbtTag::Double(name.clone(), *bits),
            NbtTag::ByteArray(name, items) => NbtTag::ByteArray(name.clone(), items.clone()),
            NbtTag::String(name, text) => NbtTag::String(name.clone(), text.clone()),
            NbtTag::List(name, items) => NbtTag::List(name.clone(), clone_tags(items)),
            NbtTag::Compound(name, children) => NbtTag::Compound(
                name.clone(),
                clone_tags(children),
            ),
            NbtTag::IntArray(name, items) => NbtTag::IntArray(name.clone(), items.clone()),
            NbtTag::LongArray(name, items) => NbtTag::LongArray(name.clone(), items.clone()),
        }
    }
}

impl NbtTag {
    /// The lower-case English name of the variant.
    pub fn kind_name(&self) -> (res: String)
        ensures
            res@ == self@.kind_name(),
    {
        match self {
            NbtTag::End => "end",
            NbtTag::Byte(_, _) => "byte",
            NbtTag::Short(_, _) => "short",
            NbtTag::Int(_, _) => "int",
            NbtTag::Long(_, _) => "long",
            NbtTag::Float(_, _) => "float",
            NbtTag::Double(_, _) => "double",
            NbtTag::ByteArray(_, _) => "byte array",
            NbtTag::String(_, _) => "string",
            NbtTag::List(_, _) => "list",
            NbtTag::Compound(_, _) => "compound",
            NbtTag::IntArray(_, _) => "int array",
            NbtTag::LongArray(_, _) => "long array",
        }.to_string()
    }

    /// Looks up the first child named `name` and returns a copy of it.
    pub fn get(&self, name: &str) -> (res: Result<NbtTag, NbtParseError>)
        ensures
            match res {
                Ok(tag) => self@.get(name@) == Ok::<TagModel, ErrorModel>(tag@),
                Err(e) => self@.get(name@) == Err::<TagModel, ErrorModel>(e@),
            },
    {
        match self {
            NbtTag::Compound(_, tags) => {
                let wanted = name.to_string();
                let mut i: usize = 0;
                assert(models(tags@).skip(0) == models(tags@));
                while i < tags.len()
                    invariant
                        i <= tags.len(),
                        wanted@ == name@,
                        self@ is Compound,
                        self@->Compound_1 == models(tags@),
                        find_child(models(tags@), name@) == find_child(
                            models(tags@).skip(i as int),
                            name@,
                        ),
                    decreases tags.len() - i,
                {
                    proof {
                        let rest = models(tags@).skip(i as int);
                        assert(rest[0] == tags[i as int]@);
                        assert(rest.drop_first() == models(tags@).skip(i + 1));
                    }
                    if tags[i].get_name() == wanted {
                        return Ok(tags[i].clone());
                    }
                    i += 1;
                }
                Err(NbtParseError::NoSuchValue(wanted))
            },
            _ => Err(NbtParseError::TriedGettingFromNonCompound(self.kind_name())),
        }
    }

    /// Looks up the child named `name` and returns its value if it is the
    /// 8-bit integer.
    pub fn get_byte(&self, name: &str) -> (res: Result<i8, NbtParseError>)
        ensures
            match res {
                Ok(value) => self@.get_byte(name@) == Ok::<i8, ErrorModel>(value),
                Err(e) => self@.get_byte(name@) == Err::<i8, ErrorModel>(e@),
            },
    {
        match self.get(name) {
            Ok(NbtTag::Byte(_, value)) => Ok(value),
            Ok(other) => Err(NbtParseError::WrongType("byte".to_string(), other.kind_name())),
            Err(e) => Err(e),
        }
    }

    /// Looks up the child named `name` and returns its value if it is the
    /// 16-bit integer.
    pub fn get_short(&self, name: &str) -> (res: Result<i16, NbtParseError>)
        ensures
            match res {
                Ok(value) => self@.get_short(name@) == Ok::<i16, ErrorModel>(value),
                Err(e) => self@.get_short(name@) == Err::<i16, ErrorModel>(e@),
            },
    {
        match self.get(name) {
            Ok(NbtTag::Short(_, value)) => Ok(value),
            Ok(other) => Err(NbtParseError::WrongType("short".to_string(), other.kind_name())),
            Err(e) => Err(e),
        }
    }

    /// Looks up the child named `name` and returns its value if it is the
    /// 32-bit integer.
    pub fn get_int(&self, name: &str) -> (res: Result<i32, NbtParseError>)
        ensures
            match res {
                Ok(value) => self@.get_int(name@) == Ok::<i32, ErrorModel>(value),
                Err(e) => self@.get_int(name@) == Err::<i32, ErrorModel>(e@),
            },
    {
        match self.get(name) {
            Ok(NbtTag::Int(_, value)) => Ok(value),
            Ok(other) => Err(NbtParseError::WrongType("int".to_string(), other.kind_name())),
            Err(e) => Err(e),
        }
    }

    /// Looks up the child named `name` and returns its value if it is the
    /// 64-bit integer.
    pub fn get_long(&self, name: &str) -> (res: Result<i64, NbtParseError>)
        ensures
            match res {
                Ok(value) => self@.get_long(name@) == Ok::<i64, ErrorModel>(value),
                Err(e) => self@.get_long(name@) == Err::<i64, ErrorModel>(e@),
            },
    {
        match self.get(name) {
            Ok(NbtTag::Long(_, value)) => Ok(value),
            Ok(other) => Err(NbtParseError::WrongType("long".to_string(), other.kind_name())),
            Err(e) => Err(e),
        }
    }

    /// Looks up the child named `name` and returns its value if it is the
    /// bit pattern of the 32-bit number.
    pub fn get_float(&self, name: &str) -> (res: Result<u32, NbtParseError>)
        ensures
            match res {
                Ok(value) => self@.get_float(name@) == Ok::<u32, ErrorModel>(value),
                Err(e) => self@.get_float(name@) == Err::<u32, ErrorModel>(e@),
            },
    {
        match self.get(name) {
            Ok(NbtTag::Float(_, value)) => Ok(value),
            Ok(other) => Err(NbtParseError::WrongType("float".to_string(), other.kind_name())),
            Err(e) => Err(e),
        }
    }

    /// Looks up the child named `name` and returns its value if it is the
    /// bit pattern of the 64-bit number.
    pub fn get_double(&self, name: &str) -> (res: Result<u64, NbtParseError>)
        ensures
            match res {
                Ok(value) => self@.get_double(name@) == Ok::<u64, ErrorModel>(value),
                Err(e) => self@.get_double(name@) == Err::<u64, ErrorModel>(e@),
            },
    {
        match self.get(name) {
            Ok(NbtTag::Double(_, value)) => Ok(value),
            Ok(other) => Err(NbtParseError::WrongType("double".to_string(), other.kind_name())),
            Err(e) => Err(e),
        }
    }

    /// Looks up the child named `name` and returns its value if it is the
    /// byte array.
    pub fn get_byte_array(&self, name: &str) -> (res: Result<Vec<i8>, NbtParseError>)
        ensures
            match res {
                Ok(value) => self@.get_byte_array(name@) == Ok::<Seq<i8>, ErrorModel>(value@),
                Err(e) => self@.get_byte_array(name@) == Err::<Seq<i8>, ErrorModel>(e@),
            },
    {
        match self.get(name) {
            Ok(NbtTag::ByteArray(_, value)) => Ok(value),
            Ok(other) => Err(NbtParseError::WrongType("byte array".to_string(), other.kind_name())),
            Err(e) => Err(e),
        }
    }

    /// Looks up the child named `name` and returns its value if it is the
    /// text.
    pub fn get_string(&self, name: &str) -> (res: Result<String, NbtParseError>)
        ensures
            match res {
                Ok(value) => self@.get_string(name@) == Ok::<Seq<char>, ErrorModel>(value@),
                Err(e) => self@.get_string(name@) == Err::<Seq<char>, ErrorModel>(e@),
            },
    {
        match self.get(name) {
            Ok(NbtTag::String(_, value)) => Ok(value),
            Ok(other) => Err(NbtParseError::WrongType("string".to_string(), other.kind_name())),
            Err(e) => Err(e),
        }
    }

    /// Looks up the child named `name` and returns its value if it is the
    /// list elements.
    pub fn get_list(&self, name: &str) -> (res: Result<Vec<NbtTag>, NbtParseError>)
        ensures
            match res {
                Ok(value) => self@.get_list(name@) == Ok::<Seq<TagModel>, ErrorModel>(models(value@)),
                Err(e) => self@.get_list(name@) == Err::<Seq<TagModel>, ErrorModel>(e@),
            },
    {
        match self.get(name) {
            Ok(NbtTag::List(_, value)) => Ok(value),
            Ok(other) => Err(NbtParseError::WrongType("list".to_string(), other.kind_name())),
            Err(e) => Err(e),
        }
    }

    /// Looks up the child named `name` and returns its value if it is the
    /// children.
    pub fn get_compound(&self, name: &str) -> (res: Result<Vec<NbtTag>, NbtParseError>)
        ensures
            match res {
                Ok(value) => self@.get_compound(name@) == Ok::<Seq<TagModel>, ErrorModel>(models(value@)),
                Err(e) => self@.get_compound(name@) == Err::<Seq<TagModel>, ErrorModel>(e@),
            },
    {
        match self.get(name) {
            Ok(NbtTag::Compound(_, value)) => Ok(value),
            Ok(other) => Err(NbtParseError::WrongType("compound".to_string(), other.kind_name())),
            Err(e) => Err(e),
        }
    }

    /// Looks up the child named `name` and returns its value if it is the
    /// int array.
    pub fn get_int_array(&self, name: &str) -> (res: Result<Vec<i32>, NbtParseError>)
        ensures
            match res {
                Ok(value) => self@.get_int_array(name@) == Ok::<Seq<i32>, ErrorModel>(value@),
                Err(e) => self@.get_int_array(name@) == Err::<Seq<i32>, ErrorModel>(e@),
            },
    {
        match self.get(name) {
            Ok(NbtTag::IntArray(_, value)) => Ok(value),
            Ok(other) => Err(NbtParseError::WrongType("int array".to_string(), other.kind_name())),
            Err(e) => Err(e),
        }
    }

    /// Looks up the child named `name` and returns its value if it is the
    /// long array.
    pub fn get_long_array(&self, name: &str) -> (res: Result<Vec<i64>, NbtParseError>)
        ensures
            match res {
                Ok(value) => self@.get_long_array(name@) == Ok::<Seq<i64>, ErrorModel>(value@),
                Err(e) => self@.get_long_array(name@) == Err::<Seq<i64>, ErrorModel>(e@),
            },
    {
        match self.get(name) {
            Ok(NbtTag::LongArray(_, value)) => Ok(value),
            Ok(other) => Err(NbtParseError::WrongType("long array".to_string(), other.kind_name())),
            Err(e) => Err(e),
        }
    }

    /// The name of the tag; the empty text for `End`.
    pub fn get_name(&self) -> (res: String)
        ensures
            res@ == self@.name(),
    {
        match self {
            NbtTag::End => String::new(),
            NbtTag::Byte(name, _) => name.clone(),
            NbtTag::Short(name, _) => name.clone(),
            NbtTag::Int(name, _) => name.clone(),
            NbtTag::Long(name, _) => name.clone(),
            NbtTag::Float(name, _) => name.clone(),
            NbtTag::Double(name, _) => name.clone(),
            NbtTag::ByteArray(name, _) => name.clone(),
            NbtTag::String(name, _) => name.clone(),
            NbtTag::List(name, _) => name.clone(),
            NbtTag::Compound(name, _) => name.clone(),
            NbtTag::IntArray(name, _) => name.clone(),
            NbtTag::LongArray(name, _) => name.clone(),
        }
    }
}

} // verus!
