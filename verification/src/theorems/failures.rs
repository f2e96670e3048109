//! Which failures a schema can give rise to.

use crate::decode::{decode, decode_fields, decode_items, decode_length};
use crate::error::{Feature, InnerError};
use crate::schema::{valid_length_width, well_formed, StringCoding, TypeModel};
use crate::theorems::sizes::scalars_only;
use vstd::prelude::*;

verus! {

/// Whether text in the given coding can fail with `error`: UTF-16 is not
/// provided, and anything else is read as UTF-8, which the bytes may not be.
pub open spec fn text_can_raise(coding: Option<StringCoding>, error: InnerError) -> bool {
    if coding == Some(StringCoding::Utf16) {
        error == (InnerError::UnsupportedFeature { what: Feature::Utf16 })
    } else {
        error is InvalidText
    }
}

/// Whether the schema `def` holds a cause for `error`. Any read can run out
/// of input; an unknown enumerant takes an enumeration, invalid text a string,
/// an unsupported feature a string in UTF-16, and a malformed length a length
/// prefix declared with that very width, which is none of 8, 16, 32 and 64.
pub open spec fn can_raise(def: TypeModel, error: InnerError) -> bool
    decreases def,
{
    match def {
        TypeModel::Struct { fields } => exists|i: int|
            0 <= i < fields.len() && can_raise(#[trigger] fields[i].1, error),
        TypeModel::StaticArray { element, .. } => can_raise(*element, error),
        TypeModel::DynamicArray { length_width, element } => if valid_length_width(length_width) {
            error is InsufficientInput || can_raise(*element, error)
        } else {
            error == (InnerError::MalformedLength { width: length_width })
        },
        TypeModel::Enum { .. } => error is InsufficientInput || error is UnknownEnumerant,
        TypeModel::StaticString { coding, .. } => error is InsufficientInput || text_can_raise(
            coding,
            error,
        ),
        TypeModel::DynamicString { length_width, coding } => if valid_length_width(length_width) {
            error is InsufficientInput || text_can_raise(coding, error)
        } else {
            error == (InnerError::MalformedLength { width: length_width })
        },
        _ => error is InsufficientInput,
    }
}

/// Every failure has its cause in the schema: decoding fails only with an
/// error that the schema can raise. So a schema whose length widths are all
/// valid never gives `MalformedLength`, one without UTF-16 never gives
/// `UnsupportedFeature`, and one without enumerations never gives
/// `UnknownEnumerant`.
pub proof fn failure_has_its_cause(def: TypeModel, bytes: Seq<u8>)
    requires
        decode(def, bytes) is Err,
    ensures
        can_raise(def, decode(def, bytes)->Err_0.error),
    decreases def, 0nat,
{
    match def {
        TypeModel::Struct { fields } => {
            failed_field_is_the_cause(fields, fields.len(), bytes);
        },
        TypeModel::StaticArray { length, element } => {
            failed_item_is_the_cause(*element, length as nat, bytes);
        },
        TypeModel::DynamicArray { length_width, element } => {
            if decode_length(length_width, bytes) is Ok {
                let (count, k) = decode_length(length_width, bytes)->Ok_0;
                failed_item_is_the_cause(*element, count, bytes.skip(k as int));
            }
        },
        _ => {},
    }
}

/// The items of an array fail only with an error that the element type can
/// raise.
proof fn failed_item_is_the_cause(element: TypeModel, count: nat, bytes: Seq<u8>)
    requires
        decode_items(element, count, bytes) is Err,
    ensures
        can_raise(element, decode_items(element, count, bytes)->Err_0.error),
    decreases element, count + 1,
{
    if count > 0 {
        let before = (count - 1) as nat;
        if decode_items(element, before, bytes) is Err {
            failed_item_is_the_cause(element, before, bytes);
        } else {
            let k = decode_items(element, before, bytes)->Ok_0.1;
            failure_has_its_cause(element, bytes.skip(k as int));
        }
    }
}

/// The fields of a struct fail only with an error that one of the fields can
/// raise.
proof fn failed_field_is_the_cause(
    fields: Seq<(Seq<char>, TypeModel)>,
    count: nat,
    bytes: Seq<u8>,
)
    requires
        count <= fields.len(),
        decode_fields(fields, count, bytes) is Err,
    ensures
        exists|i: int|
            0 <= i < fields.len() && can_raise(
                #[trigger] fields[i].1,
                decode_fields(fields, count, bytes)->Err_0.error,
            ),
    decreases fields, count + 1,
{
    if count > 0 {
        let before = (count - 1) as nat;
        if decode_fields(fields, before, bytes) is Err {
            failed_field_is_the_cause(fields, before, bytes);
        } else {
            let k = decode_fields(fields, before, bytes)->Ok_0.1;
            failure_has_its_cause(fields[count - 1].1, bytes.skip(k as int));
        }
    }
}

/// A schema of scalars alone can raise nothing but `InsufficientInput`.
proof fn scalars_raise_want_of_input(def: TypeModel, error: InnerError)
    requires
        scalars_only(def),
        can_raise(def, error),
    ensures
        error is InsufficientInput,
    decreases def,
{
    match def {
        TypeModel::Struct { fields } => {
            let i = choose|i: int|
                0 <= i < fields.len() && can_raise(#[trigger] fields[i].1, error);
            scalars_raise_want_of_input(fields[i].1, error);
        },
        TypeModel::StaticArray { element, .. } => {
            scalars_raise_want_of_input(*element, error);
        },
        TypeModel::DynamicArray { element, .. } => {
            if !(error is InsufficientInput) {
                scalars_raise_want_of_input(*element, error);
            }
        },
        _ => {},
    }
}

/// However deep a scalar sits in structs and arrays, the only way decoding
/// can fail on it is `InsufficientInput`.
pub proof fn truncation_is_insufficient_input(def: TypeModel, bytes: Seq<u8>)
    requires
        scalars_only(def),
        decode(def, bytes) is Err,
    ensures
        decode(def, bytes)->Err_0.error is InsufficientInput,
{
    failure_has_its_cause(def, bytes);
    scalars_raise_want_of_input(def, decode(def, bytes)->Err_0.error);
}

/// A well-formed schema holds no cause for `MalformedLength`.
proof fn well_formed_raises_no_malformed_length(def: TypeModel, error: InnerError)
    requires
        well_formed(def),
        can_raise(def, error),
    ensures
        !(error is MalformedLength),
    decreases def,
{
    match def {
        TypeModel::Struct { fields } => {
            let i = choose|i: int|
                0 <= i < fields.len() && can_raise(#[trigger] fields[i].1, error);
            well_formed_raises_no_malformed_length(fields[i].1, error);
        },
        TypeModel::StaticArray { element, .. } => {
            well_formed_raises_no_malformed_length(*element, error);
        },
        TypeModel::DynamicArray { element, .. } => {
            if !(error is InsufficientInput) {
                well_formed_raises_no_malformed_length(*element, error);
            }
        },
        _ => {},
    }
}

/// Against a well-formed schema, decoding never fails with
/// `MalformedLength`: that error shows a schema that was not validated, and
/// nothing about the input.
pub proof fn well_formed_is_never_malformed(def: TypeModel, bytes: Seq<u8>)
    requires
        well_formed(def),
    ensures
        !(decode(def, bytes) matches Err(fault) && fault.error is MalformedLength),
{
    if decode(def, bytes) is Err {
        failure_has_its_cause(def, bytes);
        well_formed_raises_no_malformed_length(def, decode(def, bytes)->Err_0.error);
    }
}

} // verus!
