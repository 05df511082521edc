//! Bit-level codec for compressed simulation PDUs.
//!
//! Values are packed into a fixed-capacity bit buffer with variable-width
//! integer encodings, and optional record fields are gated by a presence
//! bitmask and a full-update flag.

pub mod constants;
pub mod error;
pub mod bits;
pub mod buffer;
pub mod codec;
pub mod varint;
pub mod uvint;
pub mod svint;
pub mod conditional;
pub mod records;
pub mod marking;
pub mod entity_state;
pub mod presence;
pub mod detonation;
