//! Decoding an input that arrives piece by piece: what a cut input gives,
//! and that the same input always gives the same.

use crate::decode::{
    decode, decode_fields, decode_items, decode_length, decode_string, read_uint, yields,
};
use crate::error::{Error, Fault};
use crate::schema::{valid_length_width, StringCoding, TypeModel};
use crate::theorems::bounds::{decode_stays_in_bounds, fields_stay_in_bounds, items_stay_in_bounds};
use crate::value::Value;
use vstd::prelude::*;

verus! {

/// Whether an outcome is a failure for want of input.
pub open spec fn wants_input<T>(r: Result<(T, nat), Fault>) -> bool {
    r matches Err(fault) && fault.error is InsufficientInput
}

/// A read of `width` bytes on the first `n` bytes of the input is the read on
/// the whole input, or wants input.
proof fn read_of_prefix(bytes: Seq<u8>, width: nat, n: nat)
    requires
        n <= bytes.len(),
    ensures
        read_uint(bytes.take(n as int), width) == read_uint(bytes, width) || wants_input(
            read_uint(bytes.take(n as int), width),
        ),
{
    if n >= width {
        assert(bytes.take(n as int).take(width as int) =~= bytes.take(width as int));
    }
}

/// A string of `count` bytes on the first `n` bytes of the input is the
/// string on the whole input, or wants input.
proof fn string_of_prefix(coding: Option<StringCoding>, count: nat, bytes: Seq<u8>, n: nat)
    requires
        n <= bytes.len(),
    ensures
        decode_string(coding, count, bytes.take(n as int)) == decode_string(coding, count, bytes)
            || wants_input(decode_string(coding, count, bytes.take(n as int))),
{
    if n >= count {
        assert(bytes.take(n as int).take(count as int) =~= bytes.take(count as int));
    }
}

/// Cutting the input short changes the outcome in one way only: decoding the
/// first `n` bytes gives what decoding all of them gives, or fails with
/// `InsufficientInput`. No cut turns a value into another value, or makes
/// up an error of another kind. This holds of every schema.
pub proof fn cut_input_wants_input(def: TypeModel, bytes: Seq<u8>, n: nat)
    requires
        n <= bytes.len(),
    ensures
        decode(def, bytes.take(n as int)) == decode(def, bytes) || wants_input(
            decode(def, bytes.take(n as int)),
        ),
    decreases def, 0nat,
{
    let cut = bytes.take(n as int);
    match def {
        TypeModel::UInt8 | TypeModel::SInt8 => read_of_prefix(bytes, 1, n),
        TypeModel::UInt16 | TypeModel::SInt16 => read_of_prefix(bytes, 2, n),
        TypeModel::UInt32 | TypeModel::SInt32 | TypeModel::Float32 => read_of_prefix(bytes, 4, n),
        TypeModel::UInt64 | TypeModel::SInt64 | TypeModel::Float64 => read_of_prefix(bytes, 8, n),
        TypeModel::Struct { fields } => {
            cut_fields_want_input(fields, fields.len(), bytes, n);
        },
        TypeModel::StaticArray { length, element } => {
            cut_items_want_input(*element, length as nat, bytes, n);
        },
        TypeModel::DynamicArray { length_width, element } => {
            if valid_length_width(length_width) {
                read_of_prefix(bytes, (length_width / 8) as nat, n);
                if decode_length(length_width, cut) is Ok {
                    let (count, k) = decode_length(length_width, cut)->Ok_0;
                    assert(cut.skip(k as int) =~= bytes.skip(k as int).take(n - k));
                    cut_items_want_input(*element, count, bytes.skip(k as int), (n - k) as nat);
                }
            }
        },
        TypeModel::Enum { variants } => read_of_prefix(bytes, 1, n),
        TypeModel::StaticString { length, coding } => {
            string_of_prefix(coding, length as nat, bytes, n);
        },
        TypeModel::DynamicString { length_width, coding } => {
            if valid_length_width(length_width) {
                read_of_prefix(bytes, (length_width / 8) as nat, n);
                if decode_length(length_width, cut) is Ok {
                    let (count, k) = decode_length(length_width, cut)->Ok_0;
                    assert(cut.skip(k as int) =~= bytes.skip(k as int).take(n - k));
                    string_of_prefix(coding, count, bytes.skip(k as int), (n - k) as nat);
                }
            }
        },
    }
}

/// The items of an array on a cut input: as on the whole input, or wanting
/// input.
proof fn cut_items_want_input(element: TypeModel, count: nat, bytes: Seq<u8>, n: nat)
    requires
        n <= bytes.len(),
    ensures
        decode_items(element, count, bytes.take(n as int)) == decode_items(element, count, bytes)
            || wants_input(decode_items(element, count, bytes.take(n as int))),
    decreases element, count + 1,
{
    if count > 0 {
        let cut = bytes.take(n as int);
        let before = (count - 1) as nat;
        cut_items_want_input(element, before, bytes, n);
        if decode_items(element, before, cut) is Ok {
            let k = decode_items(element, before, cut)->Ok_0.1;
            items_stay_in_bounds(element, before, cut);
            assert(cut.skip(k as int) =~= bytes.skip(k as int).take(n - k));
            cut_input_wants_input(element, bytes.skip(k as int), (n - k) as nat);
        }
    }
}

/// The fields of a struct on a cut input: as on the whole input, or wanting
/// input.
proof fn cut_fields_want_input(
    fields: Seq<(Seq<char>, TypeModel)>,
    count: nat,
    bytes: Seq<u8>,
    n: nat,
)
    requires
        count <= fields.len(),
        n <= bytes.len(),
    ensures
        decode_fields(fields, count, bytes.take(n as int)) == decode_fields(fields, count, bytes)
            || wants_input(decode_fields(fields, count, bytes.take(n as int))),
    decreases fields, count + 1,
{
    if count > 0 {
        let cut = bytes.take(n as int);
        let before = (count - 1) as nat;
        cut_fields_want_input(fields, before, bytes, n);
        if decode_fields(fields, before, cut) is Ok {
            let k = decode_fields(fields, before, cut)->Ok_0.1;
            fields_stay_in_bounds(fields, before, cut);
            assert(cut.skip(k as int) =~= bytes.skip(k as int).take(n - k));
            cut_input_wants_input(fields[count - 1].1, bytes.skip(k as int), (n - k) as nat);
        }
    }
}

/// What decodes, decodes the same with more input after it: bytes that
/// follow a value have no part in it.
pub proof fn more_input_changes_nothing(def: TypeModel, bytes: Seq<u8>, n: nat)
    requires
        n <= bytes.len(),
        decode(def, bytes.take(n as int)) is Ok,
    ensures
        decode(def, bytes) == decode(def, bytes.take(n as int)),
{
    cut_input_wants_input(def, bytes, n);
}

/// An input cut inside a value is insufficient input: where decoding takes
/// `used` bytes, decoding any fewer of them fails with `InsufficientInput`,
/// however deep in the schema the cut falls.
pub proof fn less_input_is_insufficient(def: TypeModel, bytes: Seq<u8>, n: nat)
    requires
        decode(def, bytes) is Ok,
        n < decode(def, bytes)->Ok_0.1,
    ensures
        wants_input(decode(def, bytes.take(n as int))),
{
    decode_stays_in_bounds(def, bytes);
    cut_input_wants_input(def, bytes, n);
    decode_stays_in_bounds(def, bytes.take(n as int));
}

/// Decoding is a function of schema and bytes: two results of decoding the
/// same input against the same schema are the same, value for value and
/// byte for byte, or the same error at the same place.
pub proof fn decoding_is_repeatable<'a>(
    def: TypeModel,
    input: Seq<u8>,
    first: Result<(&'a [u8], Value), Error<'a>>,
    second: Result<(&'a [u8], Value), Error<'a>>,
)
    requires
        yields(first, input, decode(def, input)),
        yields(second, input, decode(def, input)),
    ensures
        first is Ok <==> second is Ok,
        first matches Ok((rest, value)) ==> second->Ok_0.0@ == rest@ && second->Ok_0.1@ == value@,
        first matches Err(e) ==> second->Err_0.error == e.error && second->Err_0.input@
            == e.input@,
{
}

} // verus!
