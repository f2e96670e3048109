//! The schema-driven payload decoder.
//!
//! [`decode`] says, as a function of schema and bytes, what decoding yields:
//! a value and the number of bytes used, or a fault and the offset at which it
//! arises. [`some_ip_value`] computes exactly that.

use crate::error::{reports, short, short_by, Error, Fault, Feature, InnerError};
use crate::schema::{
    field_models, lemma_field_models, lemma_model, valid_length_width, variant_models,
    SomeIPType, StringCoding, TypeModel,
};
use crate::value::{lemma_field_value_models, lemma_value_models, Value, ValueModel};
use crate::wire::{
    as_signed, be_i16, be_i32, be_i64, be_i8, be_nat, be_u16, be_u32, be_u64, be_u8,
    lemma_valid_prefix_len, string_from_utf8, take, valid_prefix_len,
};
use vstd::prelude::*;
use vstd::slice::slice_to_vec;
use vstd::utf8::{decode_utf8, valid_utf8};

verus! {

/// What a decoding step yields: the thing decoded with the number of bytes
/// used, or the fault.
pub type Outcome<T> = Result<(T, nat), Fault>;

/// The outcome `r` of a step that starts `k` bytes into the input, seen from
/// the start of the input.
pub open spec fn after<T>(k: nat, r: Outcome<T>) -> Outcome<T> {
    match r {
        Ok((v, used)) => Ok((v, k + used)),
        Err(fault) => Err(Fault { at: k + fault.at, error: fault.error }),
    }
}

/// Reads `width` bytes as an unsigned number in network byte order.
pub open spec fn read_uint(bytes: Seq<u8>, width: nat) -> Outcome<nat> {
    if bytes.len() >= width {
        Ok((be_nat(bytes.take(width as int)), width))
    } else {
        Err(short_by(0, width, bytes.len()))
    }
}

/// An unsigned integer of `width` bytes.
pub open spec fn decode_unsigned(bytes: Seq<u8>, width: nat) -> Outcome<ValueModel> {
    match read_uint(bytes, width) {
        Ok((n, used)) => Ok((ValueModel::UInt(n as u64), used)),
        Err(fault) => Err(fault),
    }
}

/// A signed integer of `width` bytes, in two's complement.
pub open spec fn decode_signed(bytes: Seq<u8>, width: nat) -> Outcome<ValueModel> {
    match read_uint(bytes, width) {
        Ok((n, used)) => Ok((ValueModel::Int(as_signed(n, width) as i64), used)),
        Err(fault) => Err(fault),
    }
}

/// A length prefix of `width` bits: the count it holds. A width other than 8,
/// 16, 32 or 64 is a fault of the schema.
pub open spec fn decode_length(width: u8, bytes: Seq<u8>) -> Outcome<nat> {
    if valid_length_width(width) {
        read_uint(bytes, (width / 8) as nat)
    } else {
        Err(Fault { at: 0, error: InnerError::MalformedLength { width } })
    }
}

/// The label of the first variant whose ordinal is `ordinal`, looking from
/// index `from` on.
pub open spec fn label_from(variants: Seq<(u64, Seq<char>)>, ordinal: u64, from: int) -> Option<
    Seq<char>,
>
    decreases variants.len() - from,
{
    if from < 0 || from >= variants.len() {
        None
    } else if variants[from].0 == ordinal {
        Some(variants[from].1)
    } else {
        label_from(variants, ordinal, from + 1)
    }
}

/// An enumeration: one byte, looked up among the variants.
pub open spec fn decode_enum(variants: Seq<(u64, Seq<char>)>, bytes: Seq<u8>) -> Outcome<
    ValueModel,
> {
    match read_uint(bytes, 1) {
        Ok((n, used)) => match label_from(variants, n as u64, 0) {
            Some(label) => Ok((ValueModel::Enum(label), used)),
            None => Err(Fault { at: 0, error: InnerError::UnknownEnumerant { ordinal: n as u8 } }),
        },
        Err(fault) => Err(fault),
    }
}

/// The text that `bytes` hold in the given coding. No coding means UTF-8;
/// UTF-16 is not provided.
pub open spec fn decode_text(coding: Option<StringCoding>, bytes: Seq<u8>) -> Result<
    Seq<char>,
    InnerError,
> {
    if coding == Some(StringCoding::Utf16) {
        Err(InnerError::UnsupportedFeature { what: Feature::Utf16 })
    } else if valid_utf8(bytes) {
        Ok(decode_utf8(bytes))
    } else {
        Err(InnerError::InvalidText { valid_up_to: valid_prefix_len(bytes) as usize })
    }
}

/// A string of `count` bytes. The bytes are taken first, so a short input is
/// reported before anything is said of the text.
pub open spec fn decode_string(coding: Option<StringCoding>, count: nat, bytes: Seq<u8>) -> Outcome<
    ValueModel,
> {
    if bytes.len() < count {
        Err(short_by(0, count, bytes.len()))
    } else {
        match decode_text(coding, bytes.take(count as int)) {
            Ok(text) => Ok((ValueModel::String(text), count)),
            Err(error) => Err(Fault { at: 0, error }),
        }
    }
}

/// Wraps decoded items as an array value.
pub open spec fn as_array(r: Outcome<Seq<ValueModel>>) -> Outcome<ValueModel> {
    match r {
        Ok((items, used)) => Ok((ValueModel::Array(items), used)),
        Err(fault) => Err(fault),
    }
}

/// Wraps decoded fields as a struct value.
pub open spec fn as_struct(r: Outcome<Seq<(Seq<char>, ValueModel)>>) -> Outcome<ValueModel> {
    match r {
        Ok((fields, used)) => Ok((ValueModel::Struct { fields }, used)),
        Err(fault) => Err(fault),
    }
}

/// What decoding `bytes` against the schema `def` yields.
///
/// The schema alone says how many bytes each step takes, but for the counts
/// of dynamic arrays and strings, which are read from the input. The first
/// fault ends the decoding and is the outcome, with its offset from the start
/// of `bytes`.
pub open spec fn decode(def: TypeModel, bytes: Seq<u8>) -> Outcome<ValueModel>
    decreases def, 0nat,
{
    match def {
        TypeModel::UInt8 => decode_unsigned(bytes, 1),
        TypeModel::UInt16 => decode_unsigned(bytes, 2),
        TypeModel::UInt32 => decode_unsigned(bytes, 4),
        TypeModel::UInt64 => decode_unsigned(bytes, 8),
        TypeModel::SInt8 => decode_signed(bytes, 1),
        TypeModel::SInt16 => decode_signed(bytes, 2),
        TypeModel::SInt32 => decode_signed(bytes, 4),
        TypeModel::SInt64 => decode_signed(bytes, 8),
        TypeModel::Float32 => match read_uint(bytes, 4) {
            Ok((n, used)) => Ok((ValueModel::Float32(n as u32), used)),
            Err(fault) => Err(fault),
        },
        TypeModel::Float64 => match read_uint(bytes, 8) {
            Ok((n, used)) => Ok((ValueModel::Float64(n as u64), used)),
            Err(fault) => Err(fault),
        },
        TypeModel::Struct { fields } => as_struct(decode_fields(fields, fields.len(), bytes)),
        TypeModel::StaticArray { length, element } => as_array(
            decode_items(*element, length as nat, bytes),
        ),
        TypeModel::DynamicArray { length_width, element } => match decode_length(
            length_width,
            bytes,
        ) {
            Ok((count, k)) => after(
                k,
                as_array(decode_items(*element, count, bytes.skip(k as int))),
            ),
            Err(fault) => Err(fault),
        },
        TypeModel::Enum { variants } => decode_enum(variants, bytes),
        TypeModel::StaticString { length, coding } => decode_string(coding, length as nat, bytes),
        TypeModel::DynamicString { length_width, coding } => match decode_length(
            length_width,
            bytes,
        ) {
            Ok((count, k)) => after(k, decode_string(coding, count, bytes.skip(k as int))),
            Err(fault) => Err(fault),
        },
    }
}

/// The first `count` items of an array of `element`s at the start of `bytes`,
/// one after the other.
pub open spec fn decode_items(element: TypeModel, count: nat, bytes: Seq<u8>) -> Outcome<
    Seq<ValueModel>,
>
    decreases element, count + 1,
{
    if count == 0 {
        Ok((Seq::empty(), 0))
    } else {
        match decode_items(element, (count - 1) as nat, bytes) {
            Ok((items, k)) => match decode(element, bytes.skip(k as int)) {
                Ok((item, used)) => Ok((items.push(item), k + used)),
                Err(fault) => Err(Fault { at: k + fault.at, error: fault.error }),
            },
            Err(fault) => Err(fault),
        }
    }
}

/// The first `count` fields of a struct at the start of `bytes`, in declared
/// order, each with its name.
pub open spec fn decode_fields(fields: Seq<(Seq<char>, TypeModel)>, count: nat, bytes: Seq<u8>)
    -> Outcome<Seq<(Seq<char>, ValueModel)>>
    recommends
        count <= fields.len(),
    decreases fields, count + 1,
{
    if count == 0 || count > fields.len() {
        Ok((Seq::empty(), 0))
    } else {
        match decode_fields(fields, (count - 1) as nat, bytes) {
            Ok((done, k)) => match decode(fields[count - 1].1, bytes.skip(k as int)) {
                Ok((value, used)) => Ok((done.push((fields[count - 1].0, value)), k + used)),
                Err(fault) => Err(Fault { at: k + fault.at, error: fault.error }),
            },
            Err(fault) => Err(fault),
        }
    }
}

/// Whether the result `r` of a decoding of `input` is the outcome `expected`:
/// on success the value's model and the input that is left after the bytes
/// used, on failure the fault.
pub open spec fn yields<'a>(
    r: Result<(&'a [u8], Value), Error<'a>>,
    input: Seq<u8>,
    expected: Outcome<ValueModel>,
) -> bool {
    match expected {
        Ok((value, used)) => r matches Ok((rest, v)) && v@ == value && used <= input.len()
            && rest@ == input.skip(used as int),
        Err(fault) => r matches Err(e) && reports(e, input, fault),
    }
}

/// Whether the result `r` of reading a length prefix from `input` is the
/// outcome `expected`.
pub open spec fn yields_length<'a>(
    r: Result<(&'a [u8], u64), Error<'a>>,
    input: Seq<u8>,
    expected: Outcome<nat>,
) -> bool {
    match expected {
        Ok((count, used)) => r matches Ok((rest, length)) && length as nat == count && used
            <= input.len() && rest@ == input.skip(used as int),
        Err(fault) => r matches Err(e) && reports(e, input, fault),
    }
}

/// Once the items fail, asking for more items fails in the same way.
pub proof fn lemma_items_fault_stays(element: TypeModel, failed: nat, count: nat, bytes: Seq<u8>)
    requires
        failed <= count,
        decode_items(element, failed, bytes) is Err,
    ensures
        decode_items(element, count, bytes) == decode_items(element, failed, bytes),
    decreases count - failed,
{
    if failed < count {
        lemma_items_fault_stays(element, failed, (count - 1) as nat, bytes);
    }
}

/// Once the fields fail, asking for more fields fails in the same way.
pub proof fn lemma_fields_fault_stays(
    fields: Seq<(Seq<char>, TypeModel)>,
    failed: nat,
    count: nat,
    bytes: Seq<u8>,
)
    requires
        failed <= count <= fields.len(),
        decode_fields(fields, failed, bytes) is Err,
    ensures
        decode_fields(fields, count, bytes) == decode_fields(fields, failed, bytes),
    decreases count - failed,
{
    if failed < count {
        lemma_fields_fault_stays(fields, failed, (count - 1) as nat, bytes);
    }
}

/// Reads a length prefix of `length_width` bits.
///
/// Fails with `MalformedLength` where the width is not 8, 16, 32 or 64, and
/// with `InsufficientInput` where the input is shorter than the prefix.
pub fn someip_dynamic_length<'a>(input: &'a [u8], length_width: u8) -> (r: Result<
    (&'a [u8], u64),
    Error<'a>,
>)
    ensures
        yields_length(r, input@, decode_length(length_width, input@)),
{
    assert(input@ == input@.skip(0));
    if length_width == 8 {
        match be_u8(input) {
            Some((rest, length)) => Ok((rest, length as u64)),
            None => Err(short(input, 1)),
        }
    } else if length_width == 16 {
        match be_u16(input) {
            Some((rest, length)) => Ok((rest, length as u64)),
            None => Err(short(input, 2)),
        }
    } else if length_width == 32 {
        match be_u32(input) {
            Some((rest, length)) => Ok((rest, length as u64)),
            None => Err(short(input, 4)),
        }
    } else if length_width == 64 {
        match be_u64(input) {
            Some((rest, length)) => Ok((rest, length)),
            None => Err(short(input, 8)),
        }
    } else {
        Err(Error::new(input, InnerError::MalformedLength { width: length_width }))
    }
}

/// Looks up the label of `ordinal`: that of the first variant that has it.
pub fn someip_enum_label(variants: &Vec<(u64, String)>, ordinal: u64) -> (r: Option<String>)
    ensures
        r is Some <==> label_from(variant_models(variants@), ordinal, 0) is Some,
        r matches Some(label) ==> label_from(variant_models(variants@), ordinal, 0) == Some(
            label@,
        ),
{
    let ghost models = variant_models(variants@);
    let mut i: usize = 0;
    while i < variants.len()
        invariant
            i <= variants.len(),
            models == variant_models(variants@),
            label_from(models, ordinal, 0) == label_from(models, ordinal, i as int),
        decreases variants.len() - i,
    {
        if variants[i].0 == ordinal {
            return Some(variants[i].1.clone());
        }
        i += 1;
    }
    None
}

/// Decodes a string of `length` bytes in the given coding.
///
/// The bytes are taken first: a short input is `InsufficientInput`. Then
/// UTF-16 is `UnsupportedFeature`, and bytes that are not UTF-8 are
/// `InvalidText`; both are reported at the first byte of the text.
pub fn someip_string<'a>(input: &'a [u8], length: u64, coding: &Option<StringCoding>) -> (r:
    Result<(&'a [u8], Value), Error<'a>>)
    ensures
        yields(r, input@, decode_string(*coding, length as nat, input@)),
{
    assert(input@ == input@.skip(0));
    assert(input@.len() == input.len());
    if length <= usize::MAX as u64 {
        if let Some((rest, bytes)) = take(input, length as usize) {
            return match coding {
                Some(StringCoding::Utf16) => Err(
                    Error::new(input, InnerError::UnsupportedFeature { what: Feature::Utf16 }),
                ),
                _ => match string_from_utf8(slice_to_vec(bytes)) {
                    Ok(text) => Ok((rest, Value::String(text))),
                    Err(valid_up_to) => {
                        proof {
                            lemma_valid_prefix_len(bytes@, valid_up_to as nat);
                        }
                        Err(Error::new(input, InnerError::InvalidText { valid_up_to }))
                    },
                },
            };
        }
    }
    Err(short(input, length))
}

/// Decodes `length` elements of the type `element`, one after the other.
///
/// The count is taken as given; nothing is set aside for the elements before
/// they are decoded. The first element that fails ends the decoding with its
/// error.
pub fn someip_array<'a>(input: &'a [u8], element: &SomeIPType, length: u64) -> (r: Result<
    (&'a [u8], Value),
    Error<'a>,
>)
    ensures
        yields(r, input@, as_array(decode_items(element@, length as nat, input@))),
    decreases element, 1nat,
{
    let mut elements: Vec<Value> = Vec::new();
    let mut cur = input;
    let mut i: u64 = 0;
    let ghost mut items: Seq<ValueModel> = Seq::empty();
    let ghost mut used: nat = 0;
    assert(input@ == input@.skip(0));
    while i < length
        invariant
            i <= length,
            used <= input@.len(),
            cur@ == input@.skip(used as int),
            decode_items(element@, i as nat, input@) == Ok::<(Seq<ValueModel>, nat), Fault>(
                (items, used),
            ),
            items.len() == elements@.len(),
            forall|j: int| 0 <= j < items.len() ==> #[trigger] items[j] == elements@[j]@,
        decreases length - i,
    {
        let ghost step = decode(element@, cur@);
        match some_ip_value(cur, element) {
            Ok((rest, value)) => {
                proof {
                    let (item, k) = step->Ok_0;
                    assert(rest@ == input@.skip((used + k) as int));
                    items = items.push(item);
                    used = used + k;
                }
                elements.push(value);
                cur = rest;
            },
            Err(e) => {
                proof {
                    let fault = step->Err_0;
                    assert(e.input@ == input@.skip((used + fault.at) as int));
                    lemma_items_fault_stays(element@, (i + 1) as nat, length as nat, input@);
                }
                return Err(e);
            },
        }
        i += 1;
    }
    let value = Value::Array(elements);
    proof {
        lemma_value_models(elements@, elements@.len());
        assert(value@->Array_0 =~= items);
    }
    Ok((cur, value))
}

/// Decodes the fields of a struct in declared order, each under its name.
///
/// The first field that fails ends the decoding with its error; no partial
/// struct comes back.
pub fn someip_struct<'a>(input: &'a [u8], fields: &Vec<(String, SomeIPType)>) -> (r: Result<
    (&'a [u8], Value),
    Error<'a>,
>)
    ensures
        yields(
            r,
            input@,
            as_struct(decode_fields(field_models(fields@, fields@.len()), fields@.len(), input@)),
        ),
    decreases fields, 1nat,
{
    let ghost models = field_models(fields@, fields@.len());
    proof {
        lemma_field_models(fields@, fields@.len());
    }
    let mut values: Vec<(String, Value)> = Vec::new();
    let mut cur = input;
    let mut i: usize = 0;
    let ghost mut done: Seq<(Seq<char>, ValueModel)> = Seq::empty();
    let ghost mut used: nat = 0;
    assert(input@ == input@.skip(0));
    while i < fields.len()
        invariant
            i <= fields.len(),
            models == field_models(fields@, fields@.len()),
            models.len() == fields@.len(),
            forall|j: int|
                0 <= j < models.len() ==> #[trigger] models[j] == (fields@[j].0@, fields@[j].1@),
            used <= input@.len(),
            cur@ == input@.skip(used as int),
            decode_fields(models, i as nat, input@) == Ok::<
                (Seq<(Seq<char>, ValueModel)>, nat),
                Fault,
            >((done, used)),
            done.len() == values@.len(),
            forall|j: int|
                0 <= j < done.len() ==> #[trigger] done[j] == (values@[j].0@, values@[j].1@),
        decreases fields.len() - i,
    {
        let ghost step = decode(models[i as int].1, cur@);
        match some_ip_value(cur, &fields[i].1) {
            Ok((rest, value)) => {
                let name = fields[i].0.clone();
                proof {
                    let (model, k) = step->Ok_0;
                    assert(rest@ == input@.skip((used + k) as int));
                    done = done.push((name@, model));
                    used = used + k;
                }
                values.push((name, value));
                cur = rest;
            },
            Err(e) => {
                proof {
                    let fault = step->Err_0;
                    assert(e.input@ == input@.skip((used + fault.at) as int));
                    lemma_fields_fault_stays(models, (i + 1) as nat, fields@.len(), input@);
                }
                return Err(e);
            },
        }
        i += 1;
    }
    let value = Value::Struct { fields: values };
    proof {
        lemma_field_value_models(values@, values@.len());
        assert(value@->fields =~= done);
    }
    Ok((cur, value))
}

/// Decodes one value of the type `def` from the start of `input`, and hands
/// out the value with the input that is left.
///
/// The result is [`decode`] of the schema and the bytes, for every schema and
/// every input: a value with the bytes after it, or the first fault with the
/// input from the point where it arose. Neither the schema nor the input is
/// changed.
pub fn some_ip_value<'a>(input: &'a [u8], def: &SomeIPType) -> (r: Result<
    (&'a [u8], Value),
    Error<'a>,
>)
    ensures
        yields(r, input@, decode(def@, input@)),
    decreases def, 0nat,
{
    assert(input@ == input@.skip(0));
    proof {
        lemma_model(*def);
    }
    match def {
        SomeIPType::UInt8 => match be_u8(input) {
            Some((rest, value)) => Ok((rest, Value::UInt(value as u64))),
            None => Err(short(input, 1)),
        },
        SomeIPType::UInt16 => match be_u16(input) {
            Some((rest, value)) => Ok((rest, Value::UInt(value as u64))),
            None => Err(short(input, 2)),
        },
        SomeIPType::UInt32 => match be_u32(input) {
            Some((rest, value)) => Ok((rest, Value::UInt(value as u64))),
            None => Err(short(input, 4)),
        },
        SomeIPType::UInt64 => match be_u64(input) {
            Some((rest, value)) => Ok((rest, Value::UInt(value))),
            None => Err(short(input, 8)),
        },
        SomeIPType::SInt8 => match be_i8(input) {
            Some((rest, value)) => Ok((rest, Value::Int(value as i64))),
            None => Err(short(input, 1)),
        },
        SomeIPType::SInt16 => match be_i16(input) {
            Some((rest, value)) => Ok((rest, Value::Int(value as i64))),
            None => Err(short(input, 2)),
        },
        SomeIPType::SInt32 => match be_i32(input) {
            Some((rest, value)) => Ok((rest, Value::Int(value as i64))),
            None => Err(short(input, 4)),
        },
        SomeIPType::SInt64 => match be_i64(input) {
            Some((rest, value)) => Ok((rest, Value::Int(value))),
            None => Err(short(input, 8)),
        },
        SomeIPType::Float32 => match be_u32(input) {
            Some((rest, bits)) => Ok((rest, Value::Float32(bits))),
            None => Err(short(input, 4)),
        },
        SomeIPType::Float64 => match be_u64(input) {
            Some((rest, bits)) => Ok((rest, Value::Float64(bits))),
            None => Err(short(input, 8)),
        },
        SomeIPType::Struct { fields } => {
            proof {
                lemma_field_models(fields@, fields@.len());
            }
            someip_struct(input, fields)
        },
        SomeIPType::StaticArray { length, element } => someip_array(
            input,
            &**element,
            *length as u64,
        ),
        SomeIPType::DynamicArray { length_width, element } => {
            match someip_dynamic_length(input, *length_width) {
                Ok((rest, length)) => {
                    let ghost k = decode_length(*length_width, input@)->Ok_0.1;
                    let ghost items = decode_items(element@, length as nat, input@.skip(k as int));
                    match someip_array(rest, &**element, length) {
                        Ok((rest, value)) => {
                            assert(rest@ == input@.skip((k + items->Ok_0.1) as int));
                            Ok((rest, value))
                        },
                        Err(e) => {
                            assert(e.input@ == input@.skip((k + items->Err_0.at) as int));
                            Err(e)
                        },
                    }
                },
                Err(e) => Err(e),
            }
        },
        SomeIPType::Enum { variants } => match be_u8(input) {
            Some((rest, ordinal)) => {
                match someip_enum_label(variants, ordinal as u64) {
                    Some(label) => Ok((rest, Value::Enum(label))),
                    None => Err(Error::new(input, InnerError::UnknownEnumerant { ordinal })),
                }
            },
            None => Err(short(input, 1)),
        },
        SomeIPType::StaticString { length, coding } => someip_string(input, *length as u64, coding),
        SomeIPType::DynamicString { length_width, coding } => {
            match someip_dynamic_length(input, *length_width) {
                Ok((rest, length)) => {
                    let ghost k = decode_length(*length_width, input@)->Ok_0.1;
                    match someip_string(rest, length, coding) {
                        Ok((rest, value)) => {
                            assert(rest@ == input@.skip((k + length) as int));
                            Ok((rest, value))
                        },
                        Err(e) => {
                            assert(e.input@ == input@.skip(k as int));
                            Err(e)
                        },
                    }
                },
                Err(e) => Err(e),
            }
        },
    }
}

} // verus!
