//! Big-endian integers and text on the wire.
//!
//! The reads themselves are `nom`'s streaming parsers and `std`'s UTF-8
//! check. Each is called through one small function whose contract says what
//! the call returns; those contracts are taken on trust, everything built on
//! them is proved.

use vstd::prelude::*;
use vstd::utf8::{decode_utf8, valid_utf8};

verus! {

/// The number that `bytes` spell in network byte order, first byte most
/// significant.
pub open spec fn be_nat(bytes: Seq<u8>) -> nat
    decreases bytes.len(),
{
    if bytes.len() == 0 {
        0
    } else {
        be_nat(bytes.drop_last()) * 256 + bytes.last() as nat
    }
}

/// The signed reading, in two's complement, of the unsigned number `n` of
/// `width` bytes, for `width` 1, 2, 4 or 8.
pub open spec fn as_signed(n: nat, width: nat) -> int {
    let half: int = if width == 1 {
        0x80
    } else if width == 2 {
        0x8000
    } else if width == 4 {
        0x8000_0000
    } else {
        0x8000_0000_0000_0000
    };
    if n < half {
        n as int
    } else {
        n - 2 * half
    }
}

/// `k` is the length of the longest prefix of `bytes` that is valid UTF-8.
pub open spec fn longest_valid_prefix(bytes: Seq<u8>, k: nat) -> bool {
    &&& k <= bytes.len()
    &&& valid_utf8(bytes.take(k as int))
    &&& forall|j: int| k < j <= bytes.len() ==> !valid_utf8(#[trigger] bytes.take(j))
}

/// The length of the longest prefix of `bytes` that is valid UTF-8.
pub open spec fn valid_prefix_len(bytes: Seq<u8>) -> nat {
    choose|k: nat| longest_valid_prefix(bytes, k)
}

/// There is only one longest valid prefix.
pub proof fn lemma_valid_prefix_len(bytes: Seq<u8>, k: nat)
    requires
        longest_valid_prefix(bytes, k),
    ensures
        valid_prefix_len(bytes) == k,
{
    let c = valid_prefix_len(bytes);
    assert(longest_valid_prefix(bytes, c));
    if c < k {
        assert(!valid_utf8(bytes.take(k as int)));
    }
    if k < c {
        assert(!valid_utf8(bytes.take(c as int)));
    }
}

/// One byte is its own value.
pub proof fn lemma_be_nat_1(bytes: Seq<u8>)
    requires
        bytes.len() == 1,
    ensures
        be_nat(bytes) == bytes[0],
{
    reveal_with_fuel(be_nat, 2);
}

/// Two bytes, written out.
pub proof fn lemma_be_nat_2(bytes: Seq<u8>)
    requires
        bytes.len() == 2,
    ensures
        be_nat(bytes) == bytes[0] * 0x100 + bytes[1],
{
    lemma_be_nat_1(bytes.drop_last());
}

/// Four bytes, written out.
pub proof fn lemma_be_nat_4(bytes: Seq<u8>)
    requires
        bytes.len() == 4,
    ensures
        be_nat(bytes) == bytes[0] * 0x100_0000 + bytes[1] * 0x1_0000 + bytes[2] * 0x100 + bytes[3],
{
    let three = bytes.drop_last();
    lemma_be_nat_2(three.drop_last());
    assert(be_nat(three) == be_nat(three.drop_last()) * 256 + three.last());
}

/// Eight bytes, written out: the first four, moved up by four bytes, and the
/// last four.
pub proof fn lemma_be_nat_8(bytes: Seq<u8>)
    requires
        bytes.len() == 8,
    ensures
        be_nat(bytes) == be_nat(bytes.take(4)) * 0x1_0000_0000 + be_nat(bytes.skip(4)),
{
    let high = bytes.take(4);
    let b5 = bytes.take(5);
    let b6 = bytes.take(6);
    let b7 = bytes.take(7);
    assert(b5.drop_last() =~= high);
    assert(b6.drop_last() =~= b5);
    assert(b7.drop_last() =~= b6);
    assert(bytes.drop_last() =~= b7);
    assert(be_nat(b5) == be_nat(high) * 256 + bytes[4]);
    assert(be_nat(b6) == be_nat(b5) * 256 + bytes[5]);
    assert(be_nat(b7) == be_nat(b6) * 256 + bytes[6]);
    assert(be_nat(bytes) == be_nat(b7) * 256 + bytes[7]);
    lemma_be_nat_4(bytes.skip(4));
}

/// `nom::number::streaming::be_u8`: with no byte left it reports incomplete
/// input, which comes back as `None`; otherwise it hands out the first byte,
/// and the input after it.
#[verifier::external_body]
pub(crate) fn be_u8<'a>(input: &'a [u8]) -> (r: Option<(&'a [u8], u8)>)
    ensures
        r is Some <==> input@.len() >= 1,
        r matches Some((rest, value)) ==> rest@ == input@.skip(1) && value as nat == be_nat(
            input@.take(1),
        ),
{
    nom::number::streaming::be_u8::<&[u8], nom::error::Error<&[u8]>>(input).ok()
}

/// `nom::number::streaming::be_u16`: with fewer than 2 bytes left it reports
/// incomplete input, which comes back as `None`; otherwise it hands out the
/// first 2 bytes read in network byte order, and the input after them.
#[verifier::external_body]
pub(crate) fn be_u16<'a>(input: &'a [u8]) -> (r: Option<(&'a [u8], u16)>)
    ensures
        r is Some <==> input@.len() >= 2,
        r matches Some((rest, value)) ==> rest@ == input@.skip(2) && value as nat == be_nat(
            input@.take(2),
        ),
{
    nom::number::streaming::be_u16::<&[u8], nom::error::Error<&[u8]>>(input).ok()
}

/// `nom::number::streaming::be_u32`: with fewer than 4 bytes left it reports
/// incomplete input, which comes back as `None`; otherwise it hands out the
/// first 4 bytes read in network byte order, and the input after them.
#[verifier::external_body]
pub(crate) fn be_u32<'a>(input: &'a [u8]) -> (r: Option<(&'a [u8], u32)>)
    ensures
        r is Some <==> input@.len() >= 4,
        r matches Some((rest, value)) ==> rest@ == input@.skip(4) && value as nat == be_nat(
            input@.take(4),
        ),
{
    nom::number::streaming::be_u32::<&[u8], nom::error::Error<&[u8]>>(input).ok()
}

/// `nom::number::streaming::be_u64`: with fewer than 8 bytes left it reports
/// incomplete input, which comes back as `None`; otherwise it hands out the
/// first 8 bytes read in network byte order, and the input after them.
#[verifier::external_body]
pub(crate) fn be_u64<'a>(input: &'a [u8]) -> (r: Option<(&'a [u8], u64)>)
    ensures
        r is Some <==> input@.len() >= 8,
        r matches Some((rest, value)) ==> rest@ == input@.skip(8) && value as nat == be_nat(
            input@.take(8),
        ),
{
    nom::number::streaming::be_u64::<&[u8], nom::error::Error<&[u8]>>(input).ok()
}

/// `nom::number::streaming::be_i8`: with no byte left it reports incomplete
/// input, which comes back as `None`; otherwise it hands out the first byte,
/// taken as a signed number in two's complement, and the input after it.
#[verifier::external_body]
pub(crate) fn be_i8<'a>(input: &'a [u8]) -> (r: Option<(&'a [u8], i8)>)
    ensures
        r is Some <==> input@.len() >= 1,
        r matches Some((rest, value)) ==> rest@ == input@.skip(1) && value as int == as_signed(
            be_nat(input@.take(1)),
            1,
        ),
{
    nom::number::streaming::be_i8::<&[u8], nom::error::Error<&[u8]>>(input).ok()
}

/// `nom::number::streaming::be_i16`: with fewer than 2 bytes left it reports
/// incomplete input, which comes back as `None`; otherwise it hands out the
/// first 2 bytes read in network byte order and taken as a signed number in
/// two's complement, and the input after them.
#[verifier::external_body]
pub(crate) fn be_i16<'a>(input: &'a [u8]) -> (r: Option<(&'a [u8], i16)>)
    ensures
        r is Some <==> input@.len() >= 2,
        r matches Some((rest, value)) ==> rest@ == input@.skip(2) && value as int == as_signed(
            be_nat(input@.take(2)),
            2,
        ),
{
    nom::number::streaming::be_i16::<&[u8], nom::error::Error<&[u8]>>(input).ok()
}

/// `nom::number::streaming::be_i32`: with fewer than 4 bytes left it reports
/// incomplete input, which comes back as `None`; otherwise it hands out the
/// first 4 bytes read in network byte order and taken as a signed number in
/// two's complement, and the input after them.
#[verifier::external_body]
pub(crate) fn be_i32<'a>(input: &'a [u8]) -> (r: Option<(&'a [u8], i32)>)
    ensures
        r is Some <==> input@.len() >= 4,
        r matches Some((rest, value)) ==> rest@ == input@.skip(4) && value as int == as_signed(
            be_nat(input@.take(4)),
            4,
        ),
{
    nom::number::streaming::be_i32::<&[u8], nom::error::Error<&[u8]>>(input).ok()
}

/// `nom::number::streaming::be_i64`: with fewer than 8 bytes left it reports
/// incomplete input, which comes back as `None`; otherwise it hands out the
/// first 8 bytes read in network byte order and taken as a signed number in
/// two's complement, and the input after them.
#[verifier::external_body]
pub(crate) fn be_i64<'a>(input: &'a [u8]) -> (r: Option<(&'a [u8], i64)>)
    ensures
        r is Some <==> input@.len() >= 8,
        r matches Some((rest, value)) ==> rest@ == input@.skip(8) && value as int == as_signed(
            be_nat(input@.take(8)),
            8,
        ),
{
    nom::number::streaming::be_i64::<&[u8], nom::error::Error<&[u8]>>(input).ok()
}

/// `nom::bytes::streaming::take`: with fewer than `count` bytes left it reports
/// incomplete input, which comes back as `None`; otherwise it hands out the
/// input after the first `count` bytes, and those bytes.
#[verifier::external_body]
pub(crate) fn take<'a>(input: &'a [u8], count: usize) -> (r: Option<(&'a [u8], &'a [u8])>)
    ensures
        r is Some <==> input@.len() >= count,
        r matches Some((rest, taken)) ==> rest@ == input@.skip(count as int) && taken@
            == input@.take(count as int),
{
    nom::bytes::streaming::take::<usize, &[u8], nom::error::Error<&[u8]>>(count)(input).ok()
}

/// `String::from_utf8`: bytes that are valid UTF-8 become the text they
/// encode; for others the error's `valid_up_to` comes back, the length of the
/// longest prefix that is valid.
#[verifier::external_body]
pub(crate) fn string_from_utf8(bytes: Vec<u8>) -> (r: Result<String, usize>)
    ensures
        r is Ok <==> valid_utf8(bytes@),
        r matches Ok(text) ==> text@ == decode_utf8(bytes@),
        r matches Err(k) ==> longest_valid_prefix(bytes@, k as nat),
{
    match String::from_utf8(bytes) {
        Ok(text) => Ok(text),
        Err(e) => Err(e.utf8_error().valid_up_to()),
    }
}

} // verus!
