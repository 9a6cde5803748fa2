//! What a call of an SDK function reads and changes.
//!
//! A function finds its arguments in the argument registers and leaves its
//! result in the result register.

use crate::audio::Interpolation;
use crate::cpu::Cpu;
use crate::emulator::Emulator;
use crate::error::SimulatorError;
use crate::isa::{reg, with_reg};
use crate::memory::MemoryView;
use crate::tasks::SchedulerView;
use vstd::prelude::*;

verus! {

/// Register that holds a function's result.
pub const RESULT: usize = 2;

/// What became of a call.
#[derive(Debug)]
pub enum HandlerResult {
    /// The function was carried out; its caller goes on.
    Complete,
    /// It was carried out, and compiled code is no longer valid.
    CodeDropped,
    /// It was carried out, and completes these frames of sound, which are to be
    /// rendered and queued.
    Rendering(Vec<Interpolation>),
    /// It waits: it is called again when the context runs again.
    Waiting,
    /// It is not one of these functions.
    NotHandled,
}

/// What a call can change.
#[verifier::ext_equal]
pub struct CallState {
    pub regs: Seq<u32>,
    pub running: bool,
    pub memory: MemoryView,
    pub heap_next: u32,
    pub scheduler: SchedulerView,
    pub locale_ansi_buffer: Option<u32>,
}

/// How a call ends: with a result, or at an address that is not mapped.
#[verifier::ext_equal]
pub struct CallOutcome {
    pub state: CallState,
    pub result: Result<HandlerResult, u32>,
}

impl CallState {
    /// The argument in a register.
    pub open spec fn argument(self, index: int) -> u32 {
        reg(self.regs, index)
    }

    /// A call that leaves this state and this result.
    pub open spec fn returning(self, value: u32) -> CallOutcome {
        CallState { regs: with_reg(self.regs, RESULT as int, value), ..self }.complete()
    }

    /// A call that leaves this state.
    pub open spec fn complete(self) -> CallOutcome {
        CallOutcome { state: self, result: Ok(HandlerResult::Complete) }
    }

    /// A call that failed at an address.
    pub open spec fn unmapped(self, address: u32) -> CallOutcome {
        CallOutcome { state: self, result: Err(address) }
    }
}

/// The lower half of a number.
pub open spec fn low_word(value: int) -> u32 {
    (value % 0x1_0000_0000) as u32
}

/// Takes the lower half of a number.
pub fn lower_half(value: u64) -> (half: u32)
    ensures
        half == low_word(value as int),
{
    assert(value as u32 == value % 0x1_0000_0000) by (bit_vector);
    value as u32
}

/// Whether a result of a function is this outcome's.
pub open spec fn result_is(
    result: Result<HandlerResult, SimulatorError>,
    expected: Result<HandlerResult, u32>,
) -> bool {
    result == match expected {
        Ok(handled) => Ok::<HandlerResult, SimulatorError>(handled),
        Err(address) => Err::<HandlerResult, SimulatorError>(
            SimulatorError::UnmappedAddress { address },
        ),
    }
}

impl Emulator {
    /// The part of a machine that functions without files see.
    pub open spec fn call_state(&self) -> CallState {
        CallState {
            regs: self.cpu.regs.file(),
            running: self.cpu.running,
            memory: self.memory@,
            heap_next: self.memory.heap_next,
            scheduler: self.scheduler@,
            locale_ansi_buffer: self.locale_ansi_buffer,
        }
    }

    /// Whether a call left the processor alone, but for registers and for whether
    /// it runs.
    pub open spec fn same_flow(&self, before: &Emulator) -> bool {
        &&& self.cpu == (Cpu {
            regs: self.cpu.regs,
            running: self.cpu.running,
            ..before.cpu
        })
        &&& self.cpu.regs.pc == before.cpu.regs.pc
    }

    /// Whether a call changed nothing but what a call can change.
    pub open spec fn same_besides_call(&self, before: &Emulator) -> bool {
        &&& self.same_flow(before)
        &&& *self == (Emulator {
            cpu: self.cpu,
            memory: self.memory,
            scheduler: self.scheduler,
            locale_ansi_buffer: self.locale_ansi_buffer,
            ..*before
        })
    }

    /// Reads an argument register.
    pub fn argument(&self, index: usize) -> (value: u32)
        requires
            index < 32,
        ensures
            value == reg(self.cpu.regs.file(), index as int),
    {
        self.cpu.regs.read(index)
    }

    /// Sets the result register.
    pub fn give(&mut self, value: u32)
        requires
            old(self).wf(),
        ensures
            final(self).wf(),
            final(self).same_flow(old(self)),
            *final(self) == (Emulator { cpu: final(self).cpu, ..*old(self) }),
            final(self).call_state() == old(self).call_state().returning(value).state,
    {
        self.cpu.regs.write(RESULT, value);
    }
}

} // verus!
