//! A small virtual machine over a heap of two-field cells, with a
//! pointer-reversal mark and sweep collector.

pub mod bytecode;
pub mod cons;
pub mod error;
pub mod inner;
pub mod instruction;
pub mod marking;
pub mod memory;
pub mod memory_laws;
pub mod reach;
pub mod sweep;
pub mod value;
pub mod vm;

pub use bytecode::{decode_integer_tail, INTEGER_BASE};
pub use cons::{Cons, Tag};
pub use error::Error;
pub use instruction::Instruction;
pub use memory::Memory;
pub use value::{Value, Value16, Value32, Value64};
pub use vm::Vm;
