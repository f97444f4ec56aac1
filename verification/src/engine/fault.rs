//! The conditions on which the interpreter stops.

use vstd::prelude::*;

verus! {

/// A fatal condition met while stepping the machine. A step that ends in a
/// fault leaves the machine exactly as it found it.
#[derive(Debug, Clone, Copy, PartialEq, Eq, Structural)]
pub enum Fault {
    /// The instruction word, carried here, matches no defined operation.
    MalformedInstruction(u16),
    /// A store was aimed at the given address, below the start of writable memory.
    ProtectedWrite(u16),
    /// An instruction fetch, a load or a store reached past the end of memory.
    OutOfBounds,
    /// A return was executed while the call stack was empty.
    StackUnderflow,
}

} // verus!
