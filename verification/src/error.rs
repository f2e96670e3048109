//! Structured decode failures.

use vstd::prelude::*;

verus! {

/// A capability that a schema may ask for and this decoder does not provide.
#[derive(Clone, Copy, Debug, PartialEq, Eq)]
pub enum Feature {
    /// Text declared as UTF-16.
    Utf16,
}

/// What went wrong.
#[derive(Clone, Copy, Debug, PartialEq, Eq)]
pub enum InnerError {
    /// Fewer bytes remain than the current schema node requires; `needed` more
    /// bytes would let the read that failed go through.
    InsufficientInput { needed: u64 },
    /// The byte read for an enumeration has no label in the schema.
    UnknownEnumerant { ordinal: u8 },
    /// The bytes of a text field are not valid in its encoding; the first
    /// `valid_up_to` bytes are the longest prefix that is.
    InvalidText { valid_up_to: usize },
    /// The schema asks for something that is not implemented.
    UnsupportedFeature { what: Feature },
    /// A length prefix is declared with a width other than 8, 16, 32 or 64 bits.
    MalformedLength { width: u8 },
}

/// A decode failure: what went wrong, and the input that was left at the
/// point where it went wrong.
#[derive(Clone, Copy, Debug, PartialEq, Eq)]
pub struct Error<'a> {
    pub input: &'a [u8],
    pub error: InnerError,
}

impl<'a> Error<'a> {
    /// The failure `error`, with `input` left at the point where it arose.
    pub fn new(input: &'a [u8], error: InnerError) -> (e: Error<'a>)
        ensures
            e.input == input,
            e.error == error,
    {
        Error { input, error }
    }

    /// The offset in `whole` at which the failure arose, where `whole` is the
    /// input that was being decoded: as many bytes as lie before the input
    /// that was left. Zero where `whole` is the shorter of the two.
    pub fn offset_in(&self, whole: &[u8]) -> (at: usize)
        ensures
            at == if self.input@.len() <= whole@.len() {
                whole@.len() - self.input@.len()
            } else {
                0
            },
            forall|fault: Fault| reports(*self, whole@, fault) ==> at == fault.at,
    {
        if self.input.len() <= whole.len() {
            whole.len() - self.input.len()
        } else {
            0
        }
    }
}

/// The failure of a read of `width` bytes on `input`, which is shorter.
pub(crate) fn short<'a>(input: &'a [u8], width: u64) -> (e: Error<'a>)
    requires
        input@.len() < width,
    ensures
        e.input == input,
        e.error == (InnerError::InsufficientInput { needed: (width - input@.len()) as u64 }),
{
    Error::new(input, InnerError::InsufficientInput { needed: width - input.len() as u64 })
}

/// Where and why decoding fails, as the specification functions give it: the
/// offset `at` from the start of the input, and the kind of failure.
pub ghost struct Fault {
    pub at: nat,
    pub error: InnerError,
}

/// The failure of a read of `width` bytes at offset `at` of an input that has
/// only `len` bytes.
pub open spec fn short_by(at: nat, width: nat, len: nat) -> Fault {
    Fault { at, error: InnerError::InsufficientInput { needed: (at + width - len) as u64 } }
}

/// Whether the failure `e`, reported on a decode of `input`, is the fault
/// `fault`: the same kind, and the input that is left from offset `fault.at`.
pub open spec fn reports(e: Error, input: Seq<u8>, fault: Fault) -> bool {
    &&& e.error == fault.error
    &&& fault.at <= input.len()
    &&& e.input@ == input.skip(fault.at as int)
}

} // verus!
