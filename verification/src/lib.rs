//! A cursor-based byte buffer for the primitive wire types of a block-game
//! network protocol: big-endian integers, booleans, base-128 variable-length
//! integers, length-prefixed text, packed block positions and UUIDs.
//!
//! Every operation carries a contract over the mathematical model in
//! [`codec`]; the buffer itself lives in [`buffer`].

pub mod bigint;
pub mod buffer;
pub mod codec;
pub mod error;
pub mod laws;
pub mod position;
pub mod text;
