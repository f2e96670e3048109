//! Structs come out as they are declared.

use crate::decode::{decode, decode_fields};
use crate::schema::TypeModel;
use vstd::prelude::*;

verus! {

/// The first `count` fields come out in declared order, each under its own
/// name.
pub proof fn fields_keep_their_names(
    fields: Seq<(Seq<char>, TypeModel)>,
    count: nat,
    bytes: Seq<u8>,
)
    requires
        count <= fields.len(),
        decode_fields(fields, count, bytes) is Ok,
    ensures
        decode_fields(fields, count, bytes)->Ok_0.0.len() == count,
        forall|i: int|
            0 <= i < count ==> (#[trigger] decode_fields(fields, count, bytes)->Ok_0.0[i]).0
                == fields[i].0,
    decreases count,
{
    if count > 0 {
        fields_keep_their_names(fields, (count - 1) as nat, bytes);
    }
}

/// A struct comes out with the fields that the schema declares, in the order
/// in which it declares them.
pub proof fn struct_keeps_declared_order(fields: Seq<(Seq<char>, TypeModel)>, bytes: Seq<u8>)
    requires
        decode(TypeModel::Struct { fields }, bytes) is Ok,
    ensures
        ({
            let value = decode(TypeModel::Struct { fields }, bytes)->Ok_0.0;
            &&& value is Struct
            &&& value->fields.len() == fields.len()
            &&& forall|i: int|
                0 <= i < fields.len() ==> (#[trigger] value->fields[i]).0 == fields[i].0
        }),
{
    fields_keep_their_names(fields, fields.len(), bytes);
}

} // verus!
