//! Streaming conversion of bencoded values into JSON.
//!
//! Bytes are pulled one at a time from a [`source::ByteReader`] and the JSON
//! equivalent is pushed to a [`sink::ByteWriter`] as soon as it is known.
//! [`value::parse`] decodes one value of any kind; each kind also has its own
//! decoder. A decoder reads exactly the bytes of its value and, on malformed
//! input, stops at the first offending byte with an [`error::Error`] that
//! describes both streams at that point.
//!
//! Choices where bencode and JSON part ways:
//! - a byte string becomes a JSON string with one character per byte, of the
//!   byte's code point (see [`string`]);
//! - dictionary keys are written in the order they come, unchecked;
//! - `i-0e` is accepted and written as `-0`;
//! - containers nest at most [`value::MAX_NESTING`] deep.
pub mod bytes;
pub mod dictionary;
pub mod error;
pub mod integer;
pub mod list;
pub mod sink;
pub mod source;
pub mod string;
pub mod value;
