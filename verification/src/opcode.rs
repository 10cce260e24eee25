use vstd::prelude::*;

verus! {

/// The instruction catalog: one variant per assigned 4-bit operation code.
/// The names follow the data flow: `MovA2B` loads register A from register B
/// (written `mov A,B`), `MovB2A` the other way round.
#[derive(Clone, Copy, PartialEq, Eq, Structural, Debug)]
pub enum Opcode {
    AddA,
    MovB2A,
    InA,
    MovA,
    MovA2B,
    AddB,
    InB,
    MovB,
    OutB,
    OutIm,
    Jnc,
    Jmp,
}

/// The 4-bit operation code of each catalog entry.
pub open spec fn code_of(op: Opcode) -> u8 {
    match op {
        Opcode::AddA => 0b0000,
        Opcode::MovB2A => 0b0001,
        Opcode::InA => 0b0010,
        Opcode::MovA => 0b0011,
        Opcode::MovA2B => 0b0100,
        Opcode::AddB => 0b0101,
        Opcode::InB => 0b0110,
        Opcode::MovB => 0b0111,
        Opcode::OutB => 0b1001,
        Opcode::OutIm => 0b1011,
        Opcode::Jnc => 0b1110,
        Opcode::Jmp => 0b1111,
    }
}

/// The catalog entry a 4-bit operation code selects, if any: four of the
/// sixteen codes are unassigned, and decoding them fails.
pub open spec fn opcode_of_code(code: u8) -> Option<Opcode> {
    if code == 0b0000 {
        Some(Opcode::AddA)
    } else if code == 0b0001 {
        Some(Opcode::MovB2A)
    } else if code == 0b0010 {
        Some(Opcode::InA)
    } else if code == 0b0011 {
        Some(Opcode::MovA)
    } else if code == 0b0100 {
        Some(Opcode::MovA2B)
    } else if code == 0b0101 {
        Some(Opcode::AddB)
    } else if code == 0b0110 {
        Some(Opcode::InB)
    } else if code == 0b0111 {
        Some(Opcode::MovB)
    } else if code == 0b1001 {
        Some(Opcode::OutB)
    } else if code == 0b1011 {
        Some(Opcode::OutIm)
    } else if code == 0b1110 {
        Some(Opcode::Jnc)
    } else if code == 0b1111 {
        Some(Opcode::Jmp)
    } else {
        None
    }
}

/// Whether the opcode's encoded word carries a meaningful immediate operand.
/// For the three opcodes without one, the decoder hands the execution stage
/// an immediate of zero.
pub open spec fn has_immediate(op: Opcode) -> bool {
    match op {
        Opcode::InA | Opcode::InB | Opcode::OutB => false,
        _ => true,
    }
}

impl Opcode {
    /// The 4-bit operation code of this catalog entry.
    pub fn code(&self) -> (code: u8)
        ensures
            code == code_of(*self),
    {
        match *self {
            Opcode::AddA => 0b0000,
            Opcode::MovB2A => 0b0001,
            Opcode::InA => 0b0010,
            Opcode::MovA => 0b0011,
            Opcode::MovA2B => 0b0100,
            Opcode::AddB => 0b0101,
            Opcode::InB => 0b0110,
            Opcode::MovB => 0b0111,
            Opcode::OutB => 0b1001,
            Opcode::OutIm => 0b1011,
            Opcode::Jnc => 0b1110,
            Opcode::Jmp => 0b1111,
        }
    }

    /// Looks a 4-bit operation code up in the catalog.
    pub fn from_code(code: u8) -> (res: Option<Opcode>)
        ensures
            res == opcode_of_code(code),
    {
        if code == 0b0000 {
            Some(Opcode::AddA)
        } else if code == 0b0001 {
            Some(Opcode::MovB2A)
        } else if code == 0b0010 {
            Some(Opcode::InA)
        } else if code == 0b0011 {
            Some(Opcode::MovA)
        } else if code == 0b0100 {
            Some(Opcode::MovA2B)
        } else if code == 0b0101 {
            Some(Opcode::AddB)
        } else if code == 0b0110 {
            Some(Opcode::InB)
        } else if code == 0b0111 {
            Some(Opcode::MovB)
        } else if code == 0b1001 {
            Some(Opcode::OutB)
        } else if code == 0b1011 {
            Some(Opcode::OutIm)
        } else if code == 0b1110 {
            Some(Opcode::Jnc)
        } else if code == 0b1111 {
            Some(Opcode::Jmp)
        } else {
            None
        }
    }
}

/// Looking an entry's own code up in the catalog gives that entry back.
pub proof fn lemma_opcode_code_roundtrip(op: Opcode)
    ensures
        opcode_of_code(code_of(op)) == Some(op),
{
}

/// Conversely, the code of whatever entry a code selects is that code:
/// the catalog maps codes and entries one to one.
pub proof fn lemma_code_opcode_roundtrip(code: u8)
    requires
        opcode_of_code(code) is Some,
    ensures
        code_of(opcode_of_code(code)->0) == code,
{
}

} // verus!
