//! A compact 8x8 two-color board surface (a bitboard) and the geometric
//! transforms needed to reason about it: rotation by 90 degrees clockwise and
//! counterclockwise, 180 degree reflection, and decomposition of set bits
//! into individually addressable positions.

pub mod bitboard;
pub mod bits;
pub mod gen_constants;
pub mod position;
pub mod rotation;
pub mod stone;
