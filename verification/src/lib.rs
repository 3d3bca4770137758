//! A verified codec between wall-clock timestamps and time-ordered 128-bit
//! identifiers in the UUID version 7 layout (RFC 9562): encoding a timestamp
//! and an 80-bit payload into a UUID, decoding the embedded millisecond
//! timestamp back out, building the minimum and maximum UUID for a given
//! millisecond, and classifying the version and variant fields of any UUID.

pub mod codec;
pub mod timestamp;
