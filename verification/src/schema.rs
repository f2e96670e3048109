//! The type tree that tells the decoder how a payload is laid out.
//!
//! A payload does not describe itself: the caller supplies a [`SomeIPType`]
//! and the decoder walks it against the bytes. The tree is plain data. Its
//! mathematical model is [`TypeModel`], over which the meaning of decoding is
//! defined.

use vstd::prelude::*;

verus! {

/// Text encoding of a string field.
#[derive(Clone, Copy, Debug, PartialEq, Eq)]
pub enum StringCoding {
    Utf8,
    Utf16,
}

/// One node of a payload schema.
///
/// A length prefix is declared by its width in bits, which is meant to be 8,
/// 16, 32 or 64. An enumeration is one byte on the wire; where two variants
/// share an ordinal, the first one is found.
#[derive(Debug, PartialEq)]
pub enum SomeIPType {
    Float32,
    Float64,
    SInt8,
    SInt16,
    SInt32,
    SInt64,
    UInt8,
    UInt16,
    UInt32,
    UInt64,
    Struct { fields: Vec<(String, SomeIPType)> },
    StaticArray { length: u32, element: Box<SomeIPType> },
    DynamicArray { length_width: u8, element: Box<SomeIPType> },
    Enum { variants: Vec<(u64, String)> },
    StaticString { length: u32, coding: Option<StringCoding> },
    DynamicString { length_width: u8, coding: Option<StringCoding> },
}

/// Mathematical model of a [`SomeIPType`]: the same tree, with sequences for
/// vectors and sequences of characters for names and labels.
pub ghost enum TypeModel {
    Float32,
    Float64,
    SInt8,
    SInt16,
    SInt32,
    SInt64,
    UInt8,
    UInt16,
    UInt32,
    UInt64,
    Struct { fields: Seq<(Seq<char>, TypeModel)> },
    StaticArray { length: u32, element: Box<TypeModel> },
    DynamicArray { length_width: u8, element: Box<TypeModel> },
    Enum { variants: Seq<(u64, Seq<char>)> },
    StaticString { length: u32, coding: Option<StringCoding> },
    DynamicString { length_width: u8, coding: Option<StringCoding> },
}

impl View for SomeIPType {
    type V = TypeModel;

    open spec fn view(&self) -> TypeModel
        decreases self, 0nat,
    {
        match self {
            SomeIPType::Float32 => TypeModel::Float32,
            SomeIPType::Float64 => TypeModel::Float64,
            SomeIPType::SInt8 => TypeModel::SInt8,
            SomeIPType::SInt16 => TypeModel::SInt16,
            SomeIPType::SInt32 => TypeModel::SInt32,
            SomeIPType::SInt64 => TypeModel::SInt64,
            SomeIPType::UInt8 => TypeModel::UInt8,
            SomeIPType::UInt16 => TypeModel::UInt16,
            SomeIPType::UInt32 => TypeModel::UInt32,
            SomeIPType::UInt64 => TypeModel::UInt64,
            SomeIPType::Struct { fields } => TypeModel::Struct {
                fields: field_models(fields@, fields@.len()),
            },
            SomeIPType::StaticArray { length, element } => TypeModel::StaticArray {
                length: *length,
                element: Box::new((**element).view()),
            },
            SomeIPType::DynamicArray { length_width, element } => TypeModel::DynamicArray {
                length_width: *length_width,
                element: Box::new((**element).view()),
            },
            SomeIPType::Enum { variants } => TypeModel::Enum {
                variants: variant_models(variants@),
            },
            SomeIPType::StaticString { length, coding } => TypeModel::StaticString {
                length: *length,
                coding: *coding,
            },
            SomeIPType::DynamicString { length_width, coding } => TypeModel::DynamicString {
                length_width: *length_width,
                coding: *coding,
            },
        }
    }
}

/// The models of the first `count` of a struct's `fields`, each with its name.
pub open spec fn field_models(fields: Seq<(String, SomeIPType)>, count: nat) -> Seq<
    (Seq<char>, TypeModel),
>
    recommends
        count <= fields.len(),
    decreases fields, count + 1,
{
    if count == 0 || count > fields.len() {
        Seq::empty()
    } else {
        field_models(fields, (count - 1) as nat).push((fields[count - 1].0@, fields[count - 1].1@))
    }
}

/// The models of an enumeration's variants.
pub open spec fn variant_models(variants: Seq<(u64, String)>) -> Seq<(u64, Seq<char>)> {
    Seq::new(variants.len(), |i: int| (variants[i].0, variants[i].1@))
}

/// `field_models` takes the fields one by one.
pub proof fn lemma_field_models(fields: Seq<(String, SomeIPType)>, count: nat)
    requires
        count <= fields.len(),
    ensures
        field_models(fields, count).len() == count,
        forall|j: int|
            0 <= j < count ==> #[trigger] field_models(fields, count)[j] == (
                fields[j].0@,
                fields[j].1@,
            ),
    decreases count,
{
    if count > 0 {
        lemma_field_models(fields, (count - 1) as nat);
        assert(field_models(fields, count) == field_models(fields, (count - 1) as nat).push(
            (fields[count - 1].0@, fields[count - 1].1@),
        ));
    } else {
        assert(field_models(fields, count) == Seq::<(Seq<char>, TypeModel)>::empty());
    }
}

/// The model of a schema node, case by case.
pub proof fn lemma_model(def: SomeIPType)
    ensures
        def@ == match def {
            SomeIPType::Float32 => TypeModel::Float32,
            SomeIPType::Float64 => TypeModel::Float64,
            SomeIPType::SInt8 => TypeModel::SInt8,
            SomeIPType::SInt16 => TypeModel::SInt16,
            SomeIPType::SInt32 => TypeModel::SInt32,
            SomeIPType::SInt64 => TypeModel::SInt64,
            SomeIPType::UInt8 => TypeModel::UInt8,
            SomeIPType::UInt16 => TypeModel::UInt16,
            SomeIPType::UInt32 => TypeModel::UInt32,
            SomeIPType::UInt64 => TypeModel::UInt64,
            SomeIPType::Struct { fields } => TypeModel::Struct {
                fields: field_models(fields@, fields@.len()),
            },
            SomeIPType::StaticArray { length, element } => TypeModel::StaticArray {
                length,
                element: Box::new((*element)@),
            },
            SomeIPType::DynamicArray { length_width, element } => TypeModel::DynamicArray {
                length_width,
                element: Box::new((*element)@),
            },
            SomeIPType::Enum { variants } => TypeModel::Enum {
                variants: variant_models(variants@),
            },
            SomeIPType::StaticString { length, coding } => TypeModel::StaticString {
                length,
                coding,
            },
            SomeIPType::DynamicString { length_width, coding } => TypeModel::DynamicString {
                length_width,
                coding,
            },
        },
{
}

/// The widths, in bits, that a length prefix may have.
pub open spec fn valid_length_width(width: u8) -> bool {
    width == 8 || width == 16 || width == 32 || width == 64
}

/// What a schema is expected to satisfy when it is handed to the decoder: the
/// names of a struct's fields differ from one another, so do the ordinals of
/// an enumeration's variants, and every length prefix has a valid width.
///
/// The decoder does not depend on it: it decodes against any schema, and
/// reports a length width that is not valid when it meets one.
pub open spec fn well_formed(def: TypeModel) -> bool
    decreases def,
{
    match def {
        TypeModel::Struct { fields } => {
            &&& forall|i: int, j: int|
                0 <= i < j < fields.len() ==> (#[trigger] fields[i]).0 != (#[trigger] fields[j]).0
            &&& forall|i: int| 0 <= i < fields.len() ==> well_formed(#[trigger] fields[i].1)
        },
        TypeModel::StaticArray { element, .. } => well_formed(*element),
        TypeModel::DynamicArray { length_width, element } => valid_length_width(length_width)
            && well_formed(*element),
        TypeModel::Enum { variants } => forall|i: int, j: int|
            0 <= i < j < variants.len() ==> (#[trigger] variants[i]).0
                != (#[trigger] variants[j]).0,
        TypeModel::DynamicString { length_width, .. } => valid_length_width(length_width),
        _ => true,
    }
}

} // verus!
