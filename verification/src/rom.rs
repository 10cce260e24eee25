use vstd::prelude::*;

verus! {

/// The program store: the read-only sequence of encoded instruction bytes a
/// run executes. The engine rejects a store of more than 16 entries at
/// construction, since the 4-bit program counter cannot address beyond that.
pub struct Rom {
    pub memory_array: Vec<u8>,
}

impl View for Rom {
    type V = Seq<u8>;

    open spec fn view(&self) -> Seq<u8> {
        self.memory_array@
    }
}

impl Rom {
    /// Wraps encoded bytes into a program store.
    pub fn new(memory_array: Vec<u8>) -> (res: Self)
        ensures
            res@ == memory_array@,
    {
        Self { memory_array }
    }

    /// The byte at the given address.
    pub fn read(&self, program_counter: u8) -> (res: u8)
        requires
            program_counter < self@.len(),
        ensures
            res == self@[program_counter as int],
    {
        self.memory_array[program_counter as usize]
    }

    /// How many instruction bytes the store holds.
    pub fn size(&self) -> (res: u8)
        requires
            self@.len() <= 255,
        ensures
            res == self@.len(),
    {
        self.memory_array.len() as u8
    }
}

} // verus!
