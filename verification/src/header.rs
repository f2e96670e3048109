//! The fixed 16-byte envelope in front of every payload.

use crate::error::{reports, short, short_by, Error, Fault};
use crate::wire::{be_nat, be_u16, be_u32, be_u8, lemma_be_nat_1};
use vstd::prelude::*;
use vstd::std_specs::convert::FromSpecImpl;

verus! {

/// What kind of message a header announces.
#[derive(Debug, PartialEq)]
pub enum SomeIPMessageType {
    Request(),
    RequestNoReturn(),
    Notification(),
    Response(),
    Error(),
    TPRequest(),
    TPRequestNoReturn(),
    TPNotification(),
    Unknown(),
}

impl From<u8> for SomeIPMessageType {
    fn from(value: u8) -> (r: Self) {
        match value {
            0x00 => Self::Request(),
            0x01 => Self::RequestNoReturn(),
            0x02 => Self::Notification(),
            0x80 => Self::Response(),
            0x81 => Self::Error(),
            0x20 => Self::TPRequest(),
            0x21 => Self::TPRequestNoReturn(),
            0x22 => Self::TPNotification(),
            _ => Self::Unknown(),
        }
    }
}

/// The message type that a byte stands for; every byte outside the table is
/// `Unknown`.
pub open spec fn message_type_of(value: u8) -> SomeIPMessageType {
    if value == 0x00 {
        SomeIPMessageType::Request()
    } else if value == 0x01 {
        SomeIPMessageType::RequestNoReturn()
    } else if value == 0x02 {
        SomeIPMessageType::Notification()
    } else if value == 0x80 {
        SomeIPMessageType::Response()
    } else if value == 0x81 {
        SomeIPMessageType::Error()
    } else if value == 0x20 {
        SomeIPMessageType::TPRequest()
    } else if value == 0x21 {
        SomeIPMessageType::TPRequestNoReturn()
    } else if value == 0x22 {
        SomeIPMessageType::TPNotification()
    } else {
        SomeIPMessageType::Unknown()
    }
}

impl FromSpecImpl<u8> for SomeIPMessageType {
    open spec fn obeys_from_spec() -> bool {
        true
    }

    open spec fn from_spec(value: u8) -> Self {
        message_type_of(value)
    }
}

/// The decoded header.
#[derive(Debug, PartialEq)]
pub struct SomeIPHeader {
    pub service_id: u16,
    pub method_id: u16,
    /// Number of bytes after this field: the rest of the header, 8 bytes, and
    /// the payload.
    pub length: u32,
    pub client_id: u16,
    pub session_id: u16,
    pub protocol_version: u8,
    pub interface_version: u8,
    pub message_type: SomeIPMessageType,
    pub return_code: u8,
}

impl SomeIPHeader {
    /// Number of bytes in the payload that follows the header: `length` counts
    /// the header's last 8 bytes too, so those come off. `None` where `length`
    /// is under 8, which no well-formed message has.
    pub fn payload_length(&self) -> (r: Option<u32>)
        ensures
            r is Some <==> self.length >= 8,
            r matches Some(n) ==> n == self.length - 8,
    {
        if self.length >= 8 {
            Some(self.length - 8)
        } else {
            None
        }
    }
}

/// A message as far as this crate takes it apart.
#[derive(Debug, PartialEq)]
pub struct SomeIPMessage {
    header: SomeIPHeader,
}

/// The payload of a message, before a schema is applied to it.
pub struct SomeIPMessageBody {}

/// The header that the first 16 bytes of `bytes` spell.
pub open spec fn header_of(bytes: Seq<u8>) -> SomeIPHeader
    recommends
        bytes.len() >= 16,
{
    SomeIPHeader {
        service_id: be_nat(bytes.subrange(0, 2)) as u16,
        method_id: be_nat(bytes.subrange(2, 4)) as u16,
        length: be_nat(bytes.subrange(4, 8)) as u32,
        client_id: be_nat(bytes.subrange(8, 10)) as u16,
        session_id: be_nat(bytes.subrange(10, 12)) as u16,
        protocol_version: bytes[12],
        interface_version: bytes[13],
        message_type: message_type_of(bytes[14]),
        return_code: bytes[15],
    }
}

/// How a header read fails on an input of `len` bytes, `len` under 16: at the
/// first field that the input does not hold in full.
pub open spec fn header_fault(len: nat) -> Fault
    recommends
        len < 16,
{
    if len < 2 {
        short_by(0, 2, len)
    } else if len < 4 {
        short_by(2, 2, len)
    } else if len < 8 {
        short_by(4, 4, len)
    } else if len < 10 {
        short_by(8, 2, len)
    } else if len < 12 {
        short_by(10, 2, len)
    } else if len < 13 {
        short_by(12, 1, len)
    } else if len < 14 {
        short_by(13, 1, len)
    } else if len < 15 {
        short_by(14, 1, len)
    } else {
        short_by(15, 1, len)
    }
}

/// Decodes the header at the start of `input` and hands out the input after
/// it.
///
/// Succeeds exactly when `input` holds 16 bytes or more. Otherwise the error
/// is `InsufficientInput` at the first field that is cut short.
pub fn some_ip_header<'a>(input: &'a [u8]) -> (r: Result<(&'a [u8], SomeIPHeader), Error<'a>>)
    ensures
        r is Ok <==> input@.len() >= 16,
        r matches Ok((rest, header)) ==> rest@ == input@.skip(16) && header == header_of(input@),
        r matches Err(e) ==> reports(e, input@, header_fault(input@.len())),
{
    let Some((i1, service_id)) = be_u16(input) else {
        assert(input@ == input@.skip(0));
        return Err(short(input, 2));
    };
    let Some((i2, method_id)) = be_u16(i1) else {
        assert(i1@ == input@.skip(2));
        return Err(short(i1, 2));
    };
    let Some((i3, length)) = be_u32(i2) else {
        assert(i2@ == input@.skip(4));
        return Err(short(i2, 4));
    };
    let Some((i4, client_id)) = be_u16(i3) else {
        assert(i3@ == input@.skip(8));
        return Err(short(i3, 2));
    };
    let Some((i5, session_id)) = be_u16(i4) else {
        assert(i4@ == input@.skip(10));
        return Err(short(i4, 2));
    };
    let Some((i6, protocol_version)) = be_u8(i5) else {
        assert(i5@ == input@.skip(12));
        return Err(short(i5, 1));
    };
    let Some((i7, interface_version)) = be_u8(i6) else {
        assert(i6@ == input@.skip(13));
        return Err(short(i6, 1));
    };
    let Some((i8, message_type)) = be_u8(i7) else {
        assert(i7@ == input@.skip(14));
        return Err(short(i7, 1));
    };
    let Some((i9, return_code)) = be_u8(i8) else {
        assert(i8@ == input@.skip(15));
        return Err(short(i8, 1));
    };
    proof {
        let b = input@;
        assert(b.take(2) == b.subrange(0, 2));
        assert(i1@.take(2) == b.subrange(2, 4));
        assert(i2@.take(4) == b.subrange(4, 8));
        assert(i3@.take(2) == b.subrange(8, 10));
        assert(i4@.take(2) == b.subrange(10, 12));
        lemma_be_nat_1(i5@.take(1));
        lemma_be_nat_1(i6@.take(1));
        lemma_be_nat_1(i7@.take(1));
        lemma_be_nat_1(i8@.take(1));
        assert(i9@ == b.skip(16));
    }
    Ok(
        (
            i9,
            SomeIPHeader {
                service_id,
                method_id,
                length,
                client_id,
                session_id,
                protocol_version,
                interface_version,
                message_type: SomeIPMessageType::from(message_type),
                return_code,
            },
        ),
    )
}

} // verus!
