use vstd::prelude::*;

verus! {

/// Faults that the interpreter surfaces to the host instead of aborting.
/// The host alone decides whether to halt, reset, or inspect the machine.
#[derive(Debug, Clone, Copy, PartialEq, Eq, Structural)]
pub enum Chip8Error {
    /// The fetched opcode matches no defined instruction pattern.
    /// `pc` is the address the opcode was fetched from.
    UnsupportedOpcode { opcode: u16, pc: usize },
    /// A memory access named an address outside the 4096-byte address space.
    OutOfRangeAccess { addr: usize },
    /// A subroutine call would exceed the 16-entry return stack.
    StackOverflow,
    /// A subroutine return was executed with an empty return stack.
    StackUnderflow,
    /// A key-state test named a key index outside the 16-key matrix.
    InvalidKey { key: u8 },
}

} // verus!
