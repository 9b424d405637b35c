//! Frame-relative stack offsets, instruction addresses and the closed
//! instruction set of the virtual machine.

use vstd::prelude::*;

verus! {

/// An index into the locals of the active frame; slot 0 is its first local.
#[derive(Debug, Clone, Copy, PartialEq, Eq, Structural)]
pub struct StackOffset(pub usize);

impl StackOffset {
    /// The offset `n` slots further on.
    pub fn advance(&self, n: usize) -> (r: StackOffset)
        requires
            self.0 + n <= usize::MAX,
        ensures
            r.0 == self.0 + n,
    {
        StackOffset(self.0 + n)
    }
}

/// An index into the fixed instruction stream.
#[derive(Debug, Clone, Copy, PartialEq, Eq, Structural)]
pub struct InstructionAddress(pub usize);

impl InstructionAddress {
    /// The address of the instruction that follows this one.
    pub fn next(&self) -> (r: InstructionAddress)
        requires
            self.0 < usize::MAX,
        ensures
            r.0 == self.0 + 1,
    {
        InstructionAddress(self.0 + 1)
    }

    /// Moves this address on to the following instruction.
    pub fn inc(&mut self)
        requires
            old(self).0 < usize::MAX,
        ensures
            final(self).0 == old(self).0 + 1,
    {
        self.0 = self.0 + 1;
    }

    /// The address `n` instructions further on.
    pub fn advance(&self, n: usize) -> (r: InstructionAddress)
        requires
            self.0 + n <= usize::MAX,
        ensures
            r.0 == self.0 + n,
    {
        InstructionAddress(self.0 + n)
    }
}

/// One operation of the machine. Operands named by a `StackOffset` are read
/// from the active frame; every constructing, arithmetic, logical and
/// comparing instruction leaves its result's heap address in the return
/// pointer register.
#[derive(Debug)]
pub enum Instruction {
    Print(StackOffset),
    Call(InstructionAddress),
    CallFromHeap(StackOffset),
    PushReturnPointerToStack,
    PushStackToParam(StackOffset),
    BranchFalse(StackOffset, InstructionAddress),
    Move { src: StackOffset, dest: StackOffset },
    Exit,
    Multiply(StackOffset, StackOffset),
    Division(StackOffset, StackOffset),
    Remainder(StackOffset, StackOffset),
    Addition(StackOffset, StackOffset),
    Substract(StackOffset, StackOffset),
    LogicalXor(StackOffset, StackOffset),
    LogicalNot(StackOffset),
    LogicalOr(StackOffset, StackOffset),
    LogicalAnd(StackOffset, StackOffset),
    GreaterThan(StackOffset, StackOffset),
    LessThan(StackOffset, StackOffset),
    Equal(StackOffset, StackOffset),
    ConsBool(bool),
    ConsNumber(i64),
    ConsString(String),
    ConsFunAddress(InstructionAddress),
    ConsRef(StackOffset),
    Deref(StackOffset),
    Return(StackOffset),
}

} // verus!
