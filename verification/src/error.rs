//! Failures of the emulated machine.

use vstd::prelude::*;

verus! {

/// Why emulation could not go on.
#[derive(Clone, Debug, PartialEq, Eq)]
pub enum SimulatorError {
    /// An access to a guest address that nothing is mapped at.
    UnmappedAddress { address: u32 },
    /// An instruction that the interpreter does not implement.
    UnknownInstruction { instruction: u32 },
    /// An SDK function without an implementation, called in strict mode.
    UnknownHle { name: String, pc: u32, import_address: u32, arguments: [u32; 4] },
    /// Code that a frame-rate patch does not expect.
    PatchMismatch { address: u32, original: u32, replacement: u32, found: u32 },
    /// Sound that goes beyond what the output can count.
    SoundOverflow,
    /// A reset without a loaded application.
    NoApplication,
}

} // verus!
