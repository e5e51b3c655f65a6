//! Data preparation for a chess policy network: bitboard feature
//! extraction, move-index encoding, and assembly of record batches
//! into the flat numeric buffers a training engine consumes.

pub mod bits;
pub mod inputs;
pub mod moves;
pub mod position;
pub mod preparer;
