//! Format en- and decoding on in-memory data buffers.
//!
//! Encoders append to a `Vec<u8>`. Decoders read from the front of a byte slice and move the
//! slice forward past what they consumed.

pub mod decode;
pub mod encode;
pub mod size;
