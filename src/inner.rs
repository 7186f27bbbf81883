//! A compact encoding with a single tag bit: bit 0 is clear for a cell index
//! and set for an integer, whose payload sits in the remaining bits.

pub mod word32;
pub mod word64;

pub use word64::{box_cons, from_i64, from_number, from_raw, is_cons, to_i64, to_number, to_raw, unbox_cons};
