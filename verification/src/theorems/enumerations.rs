//! Looking up the label of an enumeration's ordinal.

use crate::decode::{decode, label_from};
use crate::error::{Fault, InnerError};
use crate::schema::TypeModel;
use crate::value::ValueModel;
use crate::wire::lemma_be_nat_1;
use vstd::prelude::*;

verus! {

/// No variant from index `from` on has the ordinal: then no label is found.
pub proof fn no_variant_no_label(variants: Seq<(u64, Seq<char>)>, ordinal: u64, from: int)
    requires
        0 <= from,
        forall|i: int| from <= i < variants.len() ==> (#[trigger] variants[i]).0 != ordinal,
    ensures
        label_from(variants, ordinal, from) is None,
    decreases variants.len() - from,
{
    if from < variants.len() {
        no_variant_no_label(variants, ordinal, from + 1);
    }
}

/// A label is found exactly when some variant has the ordinal, and it is the
/// label of the first such variant.
pub proof fn label_is_of_first_variant(variants: Seq<(u64, Seq<char>)>, ordinal: u64, first: int)
    requires
        0 <= first < variants.len(),
        variants[first].0 == ordinal,
        forall|i: int| 0 <= i < first ==> (#[trigger] variants[i]).0 != ordinal,
    ensures
        label_from(variants, ordinal, 0) == Some(variants[first].1),
{
    label_from_skips(variants, ordinal, 0, first);
}

/// Looking from `from` is looking from `first`, where no variant in between
/// has the ordinal.
proof fn label_from_skips(variants: Seq<(u64, Seq<char>)>, ordinal: u64, from: int, first: int)
    requires
        0 <= from <= first < variants.len(),
        forall|i: int| from <= i < first ==> (#[trigger] variants[i]).0 != ordinal,
    ensures
        label_from(variants, ordinal, from) == label_from(variants, ordinal, first),
    decreases first - from,
{
    if from < first {
        label_from_skips(variants, ordinal, from + 1, first);
    }
}

/// An ordinal byte that no variant has is an error that the caller gets back,
/// `UnknownEnumerant` with that byte, reported at the byte itself.
pub proof fn unknown_enumerant_is_reported(variants: Seq<(u64, Seq<char>)>, bytes: Seq<u8>)
    requires
        bytes.len() >= 1,
        forall|i: int| 0 <= i < variants.len() ==> (#[trigger] variants[i]).0 != bytes[0],
    ensures
        decode(TypeModel::Enum { variants }, bytes) == Err::<(ValueModel, nat), Fault>(
            Fault { at: 0, error: InnerError::UnknownEnumerant { ordinal: bytes[0] } },
        ),
{
    lemma_be_nat_1(bytes.take(1));
    no_variant_no_label(variants, bytes[0] as u64, 0);
}

/// Where no two variants share an ordinal, the label found for an ordinal is
/// that of the one variant that has it.
pub proof fn deduplicated_enum_has_one_label(
    variants: Seq<(u64, Seq<char>)>,
    ordinal: u64,
    at: int,
)
    requires
        forall|i: int, j: int|
            0 <= i < j < variants.len() ==> (#[trigger] variants[i]).0
                != (#[trigger] variants[j]).0,
        0 <= at < variants.len(),
        variants[at].0 == ordinal,
    ensures
        label_from(variants, ordinal, 0) == Some(variants[at].1),
{
    label_is_of_first_variant(variants, ordinal, at);
}

/// A byte that some variant has as its ordinal decodes to the label of the
/// first such variant, and takes that one byte.
pub proof fn known_enumerant_is_labelled(
    variants: Seq<(u64, Seq<char>)>,
    bytes: Seq<u8>,
    first: int,
)
    requires
        bytes.len() >= 1,
        0 <= first < variants.len(),
        variants[first].0 == bytes[0],
        forall|i: int| 0 <= i < first ==> (#[trigger] variants[i]).0 != bytes[0],
    ensures
        decode(TypeModel::Enum { variants }, bytes) == Ok::<(ValueModel, nat), Fault>(
            (ValueModel::Enum(variants[first].1), 1),
        ),
{
    lemma_be_nat_1(bytes.take(1));
    label_is_of_first_variant(variants, bytes[0] as u64, first);
}

} // verus!
