use vstd::prelude::*;

verus! {

/// The two ports as contracts speak of them: the externally supplied input
/// value and the last value the program wrote to the output.
pub struct PortState {
    pub input: u8,
    pub output: u8,
}

impl PortState {
    /// Both ports carry 4-bit values.
    pub open spec fn wf(&self) -> bool {
        &&& self.input <= 15
        &&& self.output <= 15
    }
}

/// The machine's I/O ports: one 4-bit input, fixed for the duration of a
/// run, and one 4-bit output, overwritten by the output instructions and
/// observable from outside.
pub struct Port {
    input: u8,
    output: u8,
}

impl View for Port {
    type V = PortState;

    closed spec fn view(&self) -> PortState {
        PortState { input: self.input, output: self.output }
    }
}

impl Port {
    /// A port pair with the given initial values.
    pub fn new(input: u8, output: u8) -> (res: Self)
        requires
            input <= 15,
            output <= 15,
        ensures
            res@ == (PortState { input, output }),
    {
        Self { input, output }
    }

    /// The externally supplied input value.
    pub fn input(&self) -> (res: u8)
        ensures
            res == self@.input,
    {
        self.input
    }

    /// The value last written to the output port.
    pub fn output(&self) -> (res: u8)
        ensures
            res == self@.output,
    {
        self.output
    }

    /// Writes the output port.
    pub fn set_output(&mut self, new_value: u8)
        requires
            new_value <= 15,
        ensures
            final(self)@ == (PortState { output: new_value, ..old(self)@ }),
    {
        self.output = new_value;
    }
}

} // verus!
