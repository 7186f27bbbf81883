use vstd::prelude::*;

verus! {

/// An error of the virtual machine.
#[derive(Clone, Copy, Debug, PartialEq, Eq, Structural)]
pub enum Error {
    /// The bytecode ended in the middle of an integer.
    BytecodeEnd,
    /// An index fell outside the heap.
    InvalidMemoryAccess,
    /// An integer was expected where a pointer was found.
    NumberExpected,
    /// No cell was free, even after a collection.
    OutOfMemory,
}

impl Error {
    /// Describes the error in words.
    pub fn message(&self) -> (r: &'static str)
        ensures
            *self == Error::BytecodeEnd ==> r@ == "unexpected end of bytecode"@,
            *self == Error::InvalidMemoryAccess ==> r@ == "invalid memory access"@,
            *self == Error::NumberExpected ==> r@ == "number expected"@,
            *self == Error::OutOfMemory ==> r@ == "out of memory"@,
    {
        match self {
            Error::BytecodeEnd => "unexpected end of bytecode",
            Error::InvalidMemoryAccess => "invalid memory access",
            Error::NumberExpected => "number expected",
            Error::OutOfMemory => "out of memory",
        }
    }
}

} // verus!
