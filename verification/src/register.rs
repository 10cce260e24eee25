use vstd::prelude::*;

verus! {

/// The machine's register file as contracts speak of it: two 4-bit
/// accumulators, a 1-bit carry flag and the program counter.
pub struct RegisterState {
    pub a: u8,
    pub b: u8,
    pub carry: u8,
    pub pc: u8,
}

impl RegisterState {
    /// The register file's representation invariant: the accumulators are
    /// 4-bit values and the carry flag is a single bit. The program counter
    /// is bounded by the engine, not here: it may step one past the last
    /// addressable slot, which is the halt condition.
    pub open spec fn wf(&self) -> bool {
        &&& self.a <= 15
        &&& self.b <= 15
        &&& self.carry <= 1
    }
}

/// The register file of the machine: two 4-bit accumulators, a carry flag
/// and a 4-bit program counter, all zero when the machine starts.
pub struct Register {
    register_a: u8,
    register_b: u8,
    carry_flag: u8,
    program_counter: u8,
}

impl View for Register {
    type V = RegisterState;

    closed spec fn view(&self) -> RegisterState {
        RegisterState {
            a: self.register_a,
            b: self.register_b,
            carry: self.carry_flag,
            pc: self.program_counter,
        }
    }
}

impl Register {
    /// A register file with every register and the flag cleared.
    pub fn new() -> (res: Self)
        ensures
            res@ == (RegisterState { a: 0, b: 0, carry: 0, pc: 0 }),
    {
        Self { register_a: 0, register_b: 0, carry_flag: 0, program_counter: 0 }
    }

    pub fn program_counter(&self) -> (res: u8)
        ensures
            res == self@.pc,
    {
        self.program_counter
    }

    pub fn set_program_counter(&mut self, new_value: u8)
        requires
            new_value <= 15,
        ensures
            final(self)@ == (RegisterState { pc: new_value, ..old(self)@ }),
    {
        self.program_counter = new_value;
    }

    pub fn increment_program_counter(&mut self)
        requires
            old(self)@.pc < 255,
        ensures
            final(self)@ == (RegisterState { pc: (old(self)@.pc + 1) as u8, ..old(self)@ }),
    {
        self.program_counter = self.program_counter + 1;
    }

    pub fn carry_flag(&self) -> (res: u8)
        ensures
            res == self@.carry,
    {
        self.carry_flag
    }

    pub fn set_carry_flag(&mut self, new_value: u8)
        requires
            new_value <= 1,
        ensures
            final(self)@ == (RegisterState { carry: new_value, ..old(self)@ }),
    {
        self.carry_flag = new_value;
    }

    pub fn register_a(&self) -> (res: u8)
        ensures
            res == self@.a,
    {
        self.register_a
    }

    pub fn set_register_a(&mut self, new_value: u8)
        requires
            new_value <= 15,
        ensures
            final(self)@ == (RegisterState { a: new_value, ..old(self)@ }),
    {
        self.register_a = new_value;
    }

    pub fn register_b(&self) -> (res: u8)
        ensures
            res == self@.b,
    {
        self.register_b
    }

    pub fn set_register_b(&mut self, new_value: u8)
        requires
            new_value <= 15,
        ensures
            final(self)@ == (RegisterState { b: new_value, ..old(self)@ }),
    {
        self.register_b = new_value;
    }
}

impl Default for Register {
    /// The same all-zero register file as `new`.
    fn default() -> (res: Self)
        ensures
            res@ == (RegisterState { a: 0, b: 0, carry: 0, pc: 0 }),
    {
        Self::new()
    }
}

} // verus!
