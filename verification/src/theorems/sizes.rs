//! How many bytes a value takes: fixed by the schema, or driven by a length
//! prefix.

use crate::decode::{decode, decode_fields, decode_items};
use crate::error::{short_by, Fault};
use crate::schema::{valid_length_width, StringCoding, TypeModel};
use crate::value::ValueModel;
use crate::wire::be_nat;
use vstd::prelude::*;
use vstd::utf8::{decode_utf8, valid_utf8};

verus! {

/// The number of bytes that a value of the type `def` takes on the wire,
/// where the schema alone fixes it. Dynamic arrays and strings have no such
/// size: theirs is read from the input.
pub open spec fn fixed_size(def: TypeModel) -> Option<nat>
    decreases def, 0nat,
{
    match def {
        TypeModel::UInt8 | TypeModel::SInt8 => Some(1),
        TypeModel::UInt16 | TypeModel::SInt16 => Some(2),
        TypeModel::UInt32 | TypeModel::SInt32 | TypeModel::Float32 => Some(4),
        TypeModel::UInt64 | TypeModel::SInt64 | TypeModel::Float64 => Some(8),
        TypeModel::Struct { fields } => fields_size(fields, fields.len()),
        TypeModel::StaticArray { length, element } => match fixed_size(*element) {
            Some(size) => Some(length as nat * size),
            None => None,
        },
        TypeModel::DynamicArray { .. } => None,
        TypeModel::Enum { .. } => Some(1),
        TypeModel::StaticString { length, .. } => Some(length as nat),
        TypeModel::DynamicString { .. } => None,
    }
}

/// The size of the first `count` fields together, where each has a fixed
/// size.
pub open spec fn fields_size(fields: Seq<(Seq<char>, TypeModel)>, count: nat) -> Option<nat>
    decreases fields, count + 1,
{
    if count == 0 || count > fields.len() {
        Some(0)
    } else {
        match (fields_size(fields, (count - 1) as nat), fixed_size(fields[count - 1].1)) {
            (Some(before), Some(size)) => Some(before + size),
            _ => None,
        }
    }
}

/// A value of a type with a fixed size takes exactly that many bytes.
pub proof fn fixed_size_is_used(def: TypeModel, bytes: Seq<u8>)
    requires
        decode(def, bytes) is Ok,
        fixed_size(def) is Some,
    ensures
        decode(def, bytes)->Ok_0.1 == fixed_size(def)->Some_0,
    decreases def, 0nat,
{
    match def {
        TypeModel::Struct { fields } => {
            fields_use_their_size(fields, fields.len(), bytes);
        },
        TypeModel::StaticArray { length, element } => {
            items_use_their_size(*element, length as nat, bytes);
        },
        _ => {},
    }
}

/// Decoding `count` items yields `count` items, and where the element type
/// has a fixed size it takes `count` times that size.
pub proof fn items_use_their_size(element: TypeModel, count: nat, bytes: Seq<u8>)
    requires
        decode_items(element, count, bytes) is Ok,
    ensures
        decode_items(element, count, bytes)->Ok_0.0.len() == count,
        fixed_size(element) matches Some(size) ==> decode_items(element, count, bytes)->Ok_0.1
            == count * size,
    decreases element, count + 1,
{
    if count > 0 {
        let before = (count - 1) as nat;
        items_use_their_size(element, before, bytes);
        let k = decode_items(element, before, bytes)->Ok_0.1;
        if fixed_size(element) is Some {
            let size = fixed_size(element)->Some_0;
            fixed_size_is_used(element, bytes.skip(k as int));
            assert(count * size == before * size + size) by (nonlinear_arith)
                requires
                    count == before + 1,
            ;
        }
    }
}

/// Decoding `count` fields yields `count` fields, and where each has a fixed
/// size it takes the sum of their sizes.
pub proof fn fields_use_their_size(
    fields: Seq<(Seq<char>, TypeModel)>,
    count: nat,
    bytes: Seq<u8>,
)
    requires
        count <= fields.len(),
        decode_fields(fields, count, bytes) is Ok,
    ensures
        decode_fields(fields, count, bytes)->Ok_0.0.len() == count,
        fields_size(fields, count) matches Some(size) ==> decode_fields(
            fields,
            count,
            bytes,
        )->Ok_0.1 == size,
    decreases fields, count + 1,
{
    if count > 0 {
        let before = (count - 1) as nat;
        fields_use_their_size(fields, before, bytes);
        let k = decode_fields(fields, before, bytes)->Ok_0.1;
        if fields_size(fields, count) is Some {
            fixed_size_is_used(fields[count - 1].1, bytes.skip(k as int));
        }
    }
}

/// A dynamic array is driven by its length prefix: where decoding succeeds,
/// the array has as many elements as the prefix says, and where the element
/// type has a fixed size, the bytes used are the prefix and that many
/// elements, no more and no fewer.
pub proof fn dynamic_array_is_length_driven(length_width: u8, element: TypeModel, bytes: Seq<u8>)
    requires
        decode(TypeModel::DynamicArray { length_width, element: Box::new(element) }, bytes) is Ok,
    ensures
        valid_length_width(length_width),
        ({
            let prefix = (length_width / 8) as nat;
            let count = be_nat(bytes.take(prefix as int));
            let (value, used) = decode(
                TypeModel::DynamicArray { length_width, element: Box::new(element) },
                bytes,
            )->Ok_0;
            &&& value is Array
            &&& value->Array_0.len() == count
            &&& fixed_size(element) matches Some(size) ==> used == prefix + count * size
        }),
{
    let prefix = (length_width / 8) as nat;
    let count = be_nat(bytes.take(prefix as int));
    items_use_their_size(element, count, bytes.skip(prefix as int));
}

/// The fixed-width scalars: integers and floats.
pub open spec fn is_scalar(def: TypeModel) -> bool {
    match def {
        TypeModel::UInt8
        | TypeModel::UInt16
        | TypeModel::UInt32
        | TypeModel::UInt64
        | TypeModel::SInt8
        | TypeModel::SInt16
        | TypeModel::SInt32
        | TypeModel::SInt64
        | TypeModel::Float32
        | TypeModel::Float64 => true,
        _ => false,
    }
}

/// A scalar decodes exactly when the input holds its width in bytes. On a
/// shorter input the error is `InsufficientInput`, reported at the scalar's
/// first byte, with the number of bytes that are missing.
pub proof fn scalar_needs_its_width(def: TypeModel, bytes: Seq<u8>)
    requires
        is_scalar(def),
    ensures
        fixed_size(def) is Some,
        decode(def, bytes) is Ok <==> bytes.len() >= fixed_size(def)->Some_0,
        decode(def, bytes) matches Err(fault) ==> fault == short_by(
            0,
            fixed_size(def)->Some_0,
            bytes.len(),
        ),
{
}

/// Schemas made of scalars alone: scalars, structs of such schemas, and
/// arrays of them, static or dynamic with a valid length width.
pub open spec fn scalars_only(def: TypeModel) -> bool
    decreases def,
{
    match def {
        TypeModel::Struct { fields } => forall|i: int|
            0 <= i < fields.len() ==> scalars_only(#[trigger] fields[i].1),
        TypeModel::StaticArray { element, .. } => scalars_only(*element),
        TypeModel::DynamicArray { length_width, element } => valid_length_width(length_width)
            && scalars_only(*element),
        _ => is_scalar(def),
    }
}

/// A schema of scalars that has a fixed size decodes whenever the input holds
/// that many bytes.
pub proof fn fixed_scalars_decode(def: TypeModel, bytes: Seq<u8>)
    requires
        scalars_only(def),
        fixed_size(def) is Some,
        bytes.len() >= fixed_size(def)->Some_0,
    ensures
        decode(def, bytes) is Ok,
    decreases def, 0nat,
{
    match def {
        TypeModel::Struct { fields } => {
            fixed_scalar_fields_decode(fields, fields.len(), bytes);
        },
        TypeModel::StaticArray { length, element } => {
            fixed_scalar_items_decode(*element, length as nat, bytes);
        },
        _ => {},
    }
}

/// `count` items of scalars with a fixed size decode whenever the input holds
/// `count` times that size.
proof fn fixed_scalar_items_decode(element: TypeModel, count: nat, bytes: Seq<u8>)
    requires
        scalars_only(element),
        fixed_size(element) is Some,
        bytes.len() >= count * fixed_size(element)->Some_0,
    ensures
        decode_items(element, count, bytes) is Ok,
    decreases element, count + 1,
{
    if count > 0 {
        let size = fixed_size(element)->Some_0;
        let before = (count - 1) as nat;
        assert(count * size == before * size + size) by (nonlinear_arith)
            requires
                count == before + 1,
        ;
        fixed_scalar_items_decode(element, before, bytes);
        items_use_their_size(element, before, bytes);
        fixed_scalars_decode(element, bytes.skip((before * size) as int));
    }
}

/// `count` fields of scalars with a fixed size decode whenever the input
/// holds the sum of their sizes.
proof fn fixed_scalar_fields_decode(
    fields: Seq<(Seq<char>, TypeModel)>,
    count: nat,
    bytes: Seq<u8>,
)
    requires
        count <= fields.len(),
        forall|i: int| 0 <= i < fields.len() ==> scalars_only(#[trigger] fields[i].1),
        fields_size(fields, count) is Some,
        bytes.len() >= fields_size(fields, count)->Some_0,
    ensures
        decode_fields(fields, count, bytes) is Ok,
    decreases fields, count + 1,
{
    if count > 0 {
        let before = (count - 1) as nat;
        fixed_scalar_fields_decode(fields, before, bytes);
        fields_use_their_size(fields, before, bytes);
        let k = fields_size(fields, before)->Some_0;
        fixed_scalars_decode(fields[count - 1].1, bytes.skip(k as int));
    }
}

/// A dynamic array of elements that are scalars with a fixed size: where the
/// input holds the prefix and as many elements as the prefix counts, decoding
/// succeeds, yields that many elements, and takes the prefix and the elements
/// exactly.
pub proof fn dynamic_array_of_fixed_scalars(length_width: u8, element: TypeModel, bytes: Seq<u8>)
    requires
        valid_length_width(length_width),
        scalars_only(element),
        fixed_size(element) is Some,
        bytes.len() >= length_width / 8 + be_nat(bytes.take((length_width / 8) as int))
            * fixed_size(element)->Some_0,
    ensures
        ({
            let prefix = (length_width / 8) as nat;
            let count = be_nat(bytes.take(prefix as int));
            let size = fixed_size(element)->Some_0;
            &&& decode(
                TypeModel::DynamicArray { length_width, element: Box::new(element) },
                bytes,
            ) matches Ok((value, used))
            &&& value is Array
            &&& value->Array_0.len() == count
            &&& used == prefix + count * size
        }),
{
    let prefix = (length_width / 8) as nat;
    let count = be_nat(bytes.take(prefix as int));
    fixed_scalar_items_decode(element, count, bytes.skip(prefix as int));
    items_use_their_size(element, count, bytes.skip(prefix as int));
}

/// With a length prefix of zero a dynamic array is empty and ends with its
/// prefix, whatever follows, and nothing need follow.
pub proof fn empty_dynamic_array(length_width: u8, element: TypeModel, bytes: Seq<u8>)
    requires
        valid_length_width(length_width),
        bytes.len() >= length_width / 8,
        be_nat(bytes.take((length_width / 8) as int)) == 0,
    ensures
        decode(TypeModel::DynamicArray { length_width, element: Box::new(element) }, bytes) == Ok::<
            (ValueModel, nat),
            Fault,
        >((ValueModel::Array(Seq::empty()), (length_width / 8) as nat)),
{
}

/// With a length prefix of zero a dynamic string is empty and ends with its
/// prefix, whatever follows, and nothing need follow. UTF-16 is left out: it
/// is refused whatever the length.
pub proof fn empty_dynamic_string(length_width: u8, coding: Option<StringCoding>, bytes: Seq<u8>)
    requires
        valid_length_width(length_width),
        coding != Some(StringCoding::Utf16),
        bytes.len() >= length_width / 8,
        be_nat(bytes.take((length_width / 8) as int)) == 0,
    ensures
        decode(TypeModel::DynamicString { length_width, coding }, bytes) == Ok::<
            (ValueModel, nat),
            Fault,
        >((ValueModel::String(Seq::empty()), (length_width / 8) as nat)),
{
    let rest = bytes.skip((length_width / 8) as int);
    assert(rest.take(0) =~= Seq::<u8>::empty());
    assert(valid_utf8(Seq::<u8>::empty()));
    assert(decode_utf8(Seq::<u8>::empty()) =~= Seq::<char>::empty());
}

} // verus!
