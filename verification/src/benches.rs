//! Alternative _Varint_ implementations in the styles of other encoding formats, used to compare
//! against the Mabo one, and a generator of large schema inputs for measuring the compiler.

pub mod bincode;
pub mod postcard;
pub mod schema;
