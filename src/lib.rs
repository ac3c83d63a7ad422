//! A reflective Protocol Buffers wire-format codec: message objects are
//! encoded to and decoded from the binary wire format against runtime
//! message descriptors.
//!
//! - `wire`: varints, keys and fixed-width integers.
//! - `scalar`: single values of scalar kinds and of the well-known wrapper,
//!   Timestamp and Duration shapes.
//! - `encode`: the encode engine, with chunks whose lengths are known before
//!   anything is written.
//! - `decode`: the decode engine. A later member of a oneof group unsets the
//!   others; a map entry that leaves out its key or value gets the kind's
//!   default; unknown fields are kept as bytes.
//! - `properties`: what holds across encoding and decoding.
pub mod decode;
pub mod descriptors;
pub mod encode;
pub mod error;
pub mod properties;
pub mod scalar;
pub mod schema;
pub mod value;
pub mod well_known_types;
pub mod wire;

pub use decode::merge_into_message;
pub use encode::serialize;
