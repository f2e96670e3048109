//! Scalars on the wire, written out byte by byte.

use crate::decode::decode;
use crate::error::Fault;
use crate::schema::TypeModel;
use crate::value::ValueModel;
use crate::wire::{
    as_signed, be_nat, lemma_be_nat_1, lemma_be_nat_2, lemma_be_nat_4, lemma_be_nat_8,
};
use vstd::prelude::*;

verus! {

/// The number that the first two bytes of `bytes` spell.
pub open spec fn first_two(bytes: Seq<u8>) -> nat {
    (bytes[0] * 0x100 + bytes[1]) as nat
}

/// The number that the first four bytes of `bytes` spell.
pub open spec fn first_four(bytes: Seq<u8>) -> nat {
    (bytes[0] * 0x100_0000 + bytes[1] * 0x1_0000 + bytes[2] * 0x100 + bytes[3]) as nat
}

/// The number that the first eight bytes of `bytes` spell.
pub open spec fn first_eight(bytes: Seq<u8>) -> nat {
    first_four(bytes) * 0x1_0000_0000 + first_four(bytes.skip(4))
}

/// `be_nat` on the first bytes of an input, written out.
proof fn first_bytes_written_out(bytes: Seq<u8>)
    ensures
        bytes.len() >= 1 ==> be_nat(bytes.take(1)) == bytes[0],
        bytes.len() >= 2 ==> be_nat(bytes.take(2)) == first_two(bytes),
        bytes.len() >= 4 ==> be_nat(bytes.take(4)) == first_four(bytes),
        bytes.len() >= 8 ==> be_nat(bytes.take(8)) == first_eight(bytes),
{
    if bytes.len() >= 1 {
        lemma_be_nat_1(bytes.take(1));
    }
    if bytes.len() >= 2 {
        lemma_be_nat_2(bytes.take(2));
    }
    if bytes.len() >= 4 {
        lemma_be_nat_4(bytes.take(4));
    }
    if bytes.len() >= 8 {
        lemma_be_nat_8(bytes.take(8));
        lemma_be_nat_4(bytes.take(8).take(4));
        lemma_be_nat_4(bytes.take(8).skip(4));
    }
}

/// Integers are in network byte order: an unsigned integer is its bytes
/// weighted by powers of 256, the first byte weighing most.
pub proof fn unsigned_is_big_endian(bytes: Seq<u8>)
    ensures
        bytes.len() >= 1 ==> decode(TypeModel::UInt8, bytes) == Ok::<(ValueModel, nat), Fault>(
            (ValueModel::UInt(bytes[0] as u64), 1),
        ),
        bytes.len() >= 2 ==> decode(TypeModel::UInt16, bytes) == Ok::<(ValueModel, nat), Fault>(
            (ValueModel::UInt(first_two(bytes) as u64), 2),
        ),
        bytes.len() >= 4 ==> decode(TypeModel::UInt32, bytes) == Ok::<(ValueModel, nat), Fault>(
            (ValueModel::UInt(first_four(bytes) as u64), 4),
        ),
        bytes.len() >= 8 ==> decode(TypeModel::UInt64, bytes) == Ok::<(ValueModel, nat), Fault>(
            (ValueModel::UInt(first_eight(bytes) as u64), 8),
        ),
{
    first_bytes_written_out(bytes);
}

/// A signed integer is the unsigned integer of the same bytes read in two's
/// complement: less 2 to the number of its bits where its first bit is set.
pub proof fn signed_is_twos_complement(bytes: Seq<u8>)
    ensures
        bytes.len() >= 1 ==> decode(TypeModel::SInt8, bytes) == Ok::<(ValueModel, nat), Fault>(
            (ValueModel::Int(as_signed(bytes[0] as nat, 1) as i64), 1),
        ),
        bytes.len() >= 2 ==> decode(TypeModel::SInt16, bytes) == Ok::<(ValueModel, nat), Fault>(
            (ValueModel::Int(as_signed(first_two(bytes), 2) as i64), 2),
        ),
        bytes.len() >= 4 ==> decode(TypeModel::SInt32, bytes) == Ok::<(ValueModel, nat), Fault>(
            (ValueModel::Int(as_signed(first_four(bytes), 4) as i64), 4),
        ),
        bytes.len() >= 8 ==> decode(TypeModel::SInt64, bytes) == Ok::<(ValueModel, nat), Fault>(
            (ValueModel::Int(as_signed(first_eight(bytes), 8) as i64), 8),
        ),
{
    first_bytes_written_out(bytes);
}

/// A float is the bit pattern that its bytes spell, first byte most
/// significant.
pub proof fn float_is_its_bits(bytes: Seq<u8>)
    ensures
        bytes.len() >= 4 ==> decode(TypeModel::Float32, bytes) == Ok::<(ValueModel, nat), Fault>(
            (ValueModel::Float32(first_four(bytes) as u32), 4),
        ),
        bytes.len() >= 8 ==> decode(TypeModel::Float64, bytes) == Ok::<(ValueModel, nat), Fault>(
            (ValueModel::Float64(first_eight(bytes) as u64), 8),
        ),
{
    first_bytes_written_out(bytes);
}

} // verus!
