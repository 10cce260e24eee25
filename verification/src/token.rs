use vstd::prelude::*;

verus! {

/// The register designator an instruction operand may name.
#[derive(Clone, Copy, PartialEq, Eq, Structural, Debug)]
pub enum Register {
    A,
    B,
}

/// The assembler's intermediate representation: one instruction as
/// recognized from the source text, before it is packed into a byte.
/// Immediate operands are kept exactly as parsed; they are masked to
/// their low 4 bits only when the token is encoded.
#[derive(Clone, Copy, PartialEq, Eq, Structural, Debug)]
pub enum Token {
    Mov(Register, u8),
    MovAB,
    MovBA,
    Add(Register, u8),
    Jmp(u8),
    Jnc(u8),
    In(Register),
    OutB,
    OutIm(u8),
}

} // verus!
