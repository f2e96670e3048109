//! Schema-driven decoding of SOME/IP wire messages.
//!
//! A SOME/IP message is a fixed 16-byte header followed by a payload that
//! does not describe itself. [`some_ip_header`] decodes the header;
//! [`some_ip_value`] decodes a payload against a caller-supplied
//! [`SomeIPType`] into a [`Value`].

pub mod decode;
pub mod error;
pub mod header;
pub mod schema;
pub mod theorems;
pub mod value;
pub mod wire;

pub use decode::{
    some_ip_value, someip_array, someip_dynamic_length, someip_enum_label, someip_string,
    someip_struct,
};
pub use error::{Error, Feature, InnerError};
pub use header::{
    some_ip_header, SomeIPHeader, SomeIPMessage, SomeIPMessageBody, SomeIPMessageType,
};
pub use schema::{SomeIPType, StringCoding};
pub use value::Value;
