use vstd::prelude::*;

verus! {

/// A register of the target machine.
#[derive(Debug, PartialEq, Eq, Structural, Clone, Copy)]
pub enum Reg {
    /// The accumulator.
    Rax,
    /// The stack pointer.
    Rsp,
}

/// An operand of an instruction.
#[derive(Debug, PartialEq, Eq, Structural, Clone, Copy)]
pub enum Arg {
    /// An immediate value.
    Constant(i64),
    /// A register.
    Registry(Reg),
    /// A register plus an offset; addresses a stack slot.
    RegistryOffset(Reg, i64),
}

/// An instruction of the straight-line target program.
#[derive(Debug, PartialEq, Eq, Structural, Clone, Copy)]
pub enum Instruction {
    Inc(Arg),
    Dec(Arg),
    /// `Mov(destination, source)`
    Mov(Arg, Arg),
    /// `Add(destination, source)`
    Add(Arg, Arg),
    /// `Sub(destination, source)`
    Sub(Arg, Arg),
}

} // verus!
