//! The decoded output tree.

use vstd::prelude::*;

verus! {

/// A decoded payload value, shaped like the schema it was decoded against.
///
/// A value owns all that it holds; nothing in it points back into the input.
/// A float is kept as the IEEE-754 bit pattern that was on the wire, which
/// `f32::from_bits` and `f64::from_bits` turn into a number: this crate does
/// no floating-point arithmetic.
#[derive(Debug, PartialEq)]
pub enum Value {
    Float32(u32),
    Float64(u64),
    UInt(u64),
    Int(i64),
    Struct { fields: Vec<(String, Value)> },
    Array(Vec<Value>),
    Enum(String),
    String(String),
}

/// Mathematical model of a [`Value`].
pub ghost enum ValueModel {
    Float32(u32),
    Float64(u64),
    UInt(u64),
    Int(i64),
    Struct { fields: Seq<(Seq<char>, ValueModel)> },
    Array(Seq<ValueModel>),
    Enum(Seq<char>),
    String(Seq<char>),
}

impl View for Value {
    type V = ValueModel;

    open spec fn view(&self) -> ValueModel
        decreases self, 0nat,
    {
        match self {
            Value::Float32(bits) => ValueModel::Float32(*bits),
            Value::Float64(bits) => ValueModel::Float64(*bits),
            Value::UInt(v) => ValueModel::UInt(*v),
            Value::Int(v) => ValueModel::Int(*v),
            Value::Struct { fields } => ValueModel::Struct {
                fields: field_value_models(fields@, fields@.len()),
            },
            Value::Array(items) => ValueModel::Array(value_models(items@, items@.len())),
            Value::Enum(label) => ValueModel::Enum(label@),
            Value::String(text) => ValueModel::String(text@),
        }
    }
}

/// The models of the first `count` of `items`.
pub open spec fn value_models(items: Seq<Value>, count: nat) -> Seq<ValueModel>
    recommends
        count <= items.len(),
    decreases items, count + 1,
{
    if count == 0 || count > items.len() {
        Seq::empty()
    } else {
        value_models(items, (count - 1) as nat).push(items[count - 1]@)
    }
}

/// The models of the first `count` of `fields`, each with its name.
pub open spec fn field_value_models(fields: Seq<(String, Value)>, count: nat) -> Seq<
    (Seq<char>, ValueModel),
>
    recommends
        count <= fields.len(),
    decreases fields, count + 1,
{
    if count == 0 || count > fields.len() {
        Seq::empty()
    } else {
        field_value_models(fields, (count - 1) as nat).push(
            (fields[count - 1].0@, fields[count - 1].1@),
        )
    }
}

/// `value_models` takes the items one by one.
pub proof fn lemma_value_models(items: Seq<Value>, count: nat)
    requires
        count <= items.len(),
    ensures
        value_models(items, count).len() == count,
        forall|j: int| 0 <= j < count ==> #[trigger] value_models(items, count)[j] == items[j]@,
    decreases count,
{
    if count > 0 {
        lemma_value_models(items, (count - 1) as nat);
        assert(value_models(items, count) == value_models(items, (count - 1) as nat).push(
            items[count - 1]@,
        ));
    } else {
        assert(value_models(items, count) == Seq::<ValueModel>::empty());
    }
}

/// `field_value_models` takes the fields one by one.
pub proof fn lemma_field_value_models(fields: Seq<(String, Value)>, count: nat)
    requires
        count <= fields.len(),
    ensures
        field_value_models(fields, count).len() == count,
        forall|j: int|
            0 <= j < count ==> #[trigger] field_value_models(fields, count)[j] == (
                fields[j].0@,
                fields[j].1@,
            ),
    decreases count,
{
    if count > 0 {
        lemma_field_value_models(fields, (count - 1) as nat);
        assert(field_value_models(fields, count) == field_value_models(
            fields,
            (count - 1) as nat,
        ).push((fields[count - 1].0@, fields[count - 1].1@)));
    } else {
        assert(field_value_models(fields, count) == Seq::<(Seq<char>, ValueModel)>::empty());
    }
}

} // verus!
