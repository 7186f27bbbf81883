use crate::cons::Tag;
use vstd::prelude::*;

verus! {

/// An instruction of the interpreter, told by the low bit of a tag.
#[derive(Clone, Copy, Debug, PartialEq, Eq, Structural)]
pub enum Instruction {
    /// Allocates a cell whose head is the operand and whose tail is the
    /// destination's value, and stores a pointer to it in the destination.
    Cons,
    /// Copies into the destination the slot whose index is the operand.
    Move,
}

impl Instruction {
    /// Decodes the instruction of a tag.
    pub fn from_tag(tag: Tag) -> (r: Instruction)
        ensures
            tag % 2 == 0 ==> r == Instruction::Cons,
            tag % 2 == 1 ==> r == Instruction::Move,
    {
        if tag % 2 == 0 {
            Instruction::Cons
        } else {
            Instruction::Move
        }
    }
}

} // verus!
