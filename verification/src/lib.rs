//! A compact self-describing binary serialization engine and its dynamic
//! value model, together with a checksummed textual codec for 8-byte
//! account identifiers.
//!
//! The wire format is tag-prefixed: every value carries a self-describing
//! tag, so a decoder needs no external schema. Integers take the smallest
//! form that round-trips them exactly; text and binary payloads take the
//! smallest size tier that covers their length; sequences and maps embed
//! their element count in the header, so a length must be known before
//! encoding starts. The dynamic `Value` union represents any decodable
//! wire value, converts to and from native types, and round-trips through
//! the codec without loss; a map's pairs keep exactly the order given.
#![verifier::loop_isolation(false)]

pub mod value;
pub mod wire;
pub mod ser;
pub mod de;
pub mod laws;
pub mod convert;
pub mod dict;
pub mod address;
pub mod types;
pub mod emitter;
pub mod form;

use vstd::prelude::*;

verus! {

/// The two ways an encode call can fail: a payload longer than the largest
/// size tier of the wire format, or a sequence whose length is not known
/// before its elements are written.
#[derive(Clone, Copy, Debug, PartialEq, Eq, Structural)]
pub enum Error {
    TooBig,
    BadLength,
}

} // verus!
