//! Decoding stays within its input.

use crate::decode::{decode, decode_fields, decode_items, decode_length};
use crate::schema::TypeModel;
use vstd::prelude::*;

verus! {

/// Decoding never looks past the end of its input: what it uses, and the
/// place of a fault, lie within the bytes given.
pub proof fn decode_stays_in_bounds(def: TypeModel, bytes: Seq<u8>)
    ensures
        decode(def, bytes) matches Ok((_, used)) ==> used <= bytes.len(),
        decode(def, bytes) matches Err(fault) ==> fault.at <= bytes.len(),
    decreases def, 0nat,
{
    match def {
        TypeModel::Struct { fields } => {
            fields_stay_in_bounds(fields, fields.len(), bytes);
        },
        TypeModel::StaticArray { length, element } => {
            items_stay_in_bounds(*element, length as nat, bytes);
        },
        TypeModel::DynamicArray { length_width, element } => {
            if decode_length(length_width, bytes) is Ok {
                let (count, k) = decode_length(length_width, bytes)->Ok_0;
                items_stay_in_bounds(*element, count, bytes.skip(k as int));
            }
        },
        _ => {},
    }
}

/// The items of an array stay within the bytes given.
pub proof fn items_stay_in_bounds(element: TypeModel, count: nat, bytes: Seq<u8>)
    ensures
        decode_items(element, count, bytes) matches Ok((_, used)) ==> used <= bytes.len(),
        decode_items(element, count, bytes) matches Err(fault) ==> fault.at <= bytes.len(),
    decreases element, count + 1,
{
    if count > 0 {
        let before = (count - 1) as nat;
        items_stay_in_bounds(element, before, bytes);
        if decode_items(element, before, bytes) is Ok {
            let k = decode_items(element, before, bytes)->Ok_0.1;
            decode_stays_in_bounds(element, bytes.skip(k as int));
        }
    }
}

/// The fields of a struct stay within the bytes given.
pub proof fn fields_stay_in_bounds(
    fields: Seq<(Seq<char>, TypeModel)>,
    count: nat,
    bytes: Seq<u8>,
)
    requires
        count <= fields.len(),
    ensures
        decode_fields(fields, count, bytes) matches Ok((_, used)) ==> used <= bytes.len(),
        decode_fields(fields, count, bytes) matches Err(fault) ==> fault.at <= bytes.len(),
    decreases fields, count + 1,
{
    if count > 0 {
        let before = (count - 1) as nat;
        fields_stay_in_bounds(fields, before, bytes);
        if decode_fields(fields, before, bytes) is Ok {
            let k = decode_fields(fields, before, bytes)->Ok_0.1;
            decode_stays_in_bounds(fields[count - 1].1, bytes.skip(k as int));
        }
    }
}

} // verus!
