use vstd::prelude::*;

verus! {

/// The loaded source: an immutable sequence of instruction bytes.
pub struct Program {
    bytes: Vec<u8>,
}

impl View for Program {
    type V = Seq<u8>;

    closed spec fn view(&self) -> Seq<u8> {
        self.bytes@
    }
}

impl Program {
    /// Loads any byte sequence; bytes that are not instructions are no-ops.
    pub fn load(bytes: Vec<u8>) -> (p: Program)
        ensures
            p@ == bytes@,
    {
        Program { bytes }
    }

    /// The number of bytes in the program.
    pub fn length(&self) -> (n: usize)
        ensures
            n == self@.len(),
    {
        self.bytes.len()
    }

    /// The byte at position `pc`.
    pub fn instruction_at(&self, pc: usize) -> (b: u8)
        requires
            pc < self@.len(),
        ensures
            b == self@[pc as int],
    {
        self.bytes[pc]
    }
}

} // verus!
