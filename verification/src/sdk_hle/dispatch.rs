//! Calls of hooked functions.

use crate::cpu::{Cpu, Registers};
use crate::emulator::{Emulator, Tick};
use crate::error::SimulatorError;
use crate::isa::{reg, with_reg};
use crate::sdk_hle::call::HandlerResult;
use crate::sdk_hle::files::{file_call, is_file_function, only_files, HostReply};
use crate::sdk_hle::media::{is_media_function, media_call};
use crate::sdk_hle::system::{is_system_function, system_effect};
use crate::sdk_hle::tasks::{is_task_function, task_effect};
use crate::sdk_hle::{files, media, system, tasks};
use crate::unknown_hle::unknown_recorded;
use vstd::prelude::*;
use vstd::string::*;

verus! {

/// Register that holds a function's return address.
pub const RETURN_ADDRESS: usize = 31;

/// The machine as a function left it, before its caller went on.
pub open spec fn before_return(before: Emulator, after: Emulator) -> Emulator {
    Emulator {
        cpu: Cpu {
            regs: Registers { pc: before.cpu.regs.pc, ..after.cpu.regs },
            ..after.cpu
        },
        ..after
    }
}

/// What a function that is not implemented does: it is recorded, and gives zero
/// where that is tolerated.
pub open spec fn unknown_called(
    before: Emulator,
    called: Emulator,
    address: u32,
    name: Seq<char>,
    result: Result<HandlerResult, SimulatorError>,
) -> bool {
    &&& called == (Emulator {
        cpu: called.cpu,
        unknown_hle: called.unknown_hle,
        ..before
    })
    &&& called.same_flow(&before)
    &&& called.cpu.running == before.cpu.running
    &&& unknown_recorded(
        before.unknown_hle,
        called.unknown_hle,
        before.cpu.regs.file(),
        name,
        address,
        reg(before.cpu.regs.file(), RETURN_ADDRESS as int),
        match result {
            Ok(_) => Ok(()),
            Err(error) => Err(error),
        },
    )
    &&& match result {
        Ok(handled) => handled is Complete && called.cpu.regs.file() == with_reg(
            before.cpu.regs.file(),
            2,
            0,
        ),
        Err(_) => called.cpu.regs.file() == before.cpu.regs.file(),
    }
}

/// What calling a function does, before its caller goes on.
pub open spec fn called(
    before: Emulator,
    called: Emulator,
    address: u32,
    name: Seq<char>,
    reply: HostReply,
    result: Result<HandlerResult, SimulatorError>,
) -> bool {
    if is_system_function(name) {
        system_effect(name, before, called, result)
    } else if is_task_function(name) {
        task_effect(name, before, called, result)
    } else if is_file_function(name) {
        file_call(name, before, called, reply, result) && only_files(before, called)
    } else if is_media_function(name) {
        media_call(name, before, called, result) && called.same_flow(&before)
    } else {
        unknown_called(before, called, address, name, result)
    }
}

/// Whether a machine is at the same place of the same frame.
pub open spec fn same_place(before: Emulator, after: Emulator) -> bool {
    &&& after.cycle_count == before.cycle_count
    &&& after.scheduler.active_task == before.scheduler.active_task
    &&& after.scheduler.scheduler_cursor == before.scheduler.scheduler_cursor
}

/// Calls a function at an address, on what the host found for it. The caller goes
/// on at the return address, unless the function waits or fails.
pub fn dispatch(emu: &mut Emulator, address: u32, func_name: &str, reply: HostReply) -> (result:
    Result<HandlerResult, SimulatorError>)
    requires
        old(emu).wf(),
    ensures
        final(emu).wf(),
        same_place(*old(emu), *final(emu)),
        called(
            *old(emu),
            before_return(*old(emu), *final(emu)),
            address,
            func_name@,
            reply,
            result,
        ),
        final(emu).cpu.regs.pc == match result {
            Ok(HandlerResult::Waiting) => old(emu).cpu.regs.pc,
            Ok(_) => reg(final(emu).cpu.regs.file(), RETURN_ADDRESS as int),
            Err(_) => old(emu).cpu.regs.pc,
        },
        !(result matches Ok(HandlerResult::NotHandled)),
{
    let result = carry_out(emu, address, func_name, reply);
    match &result {
        Ok(HandlerResult::Waiting) => {},
        Ok(_) => {
            emu.cpu.regs.pc = emu.cpu.regs.read(RETURN_ADDRESS);
        },
        Err(_) => {},
    }
    result
}

/// Calls a function, and leaves it to the caller where to go on.
fn carry_out(emu: &mut Emulator, address: u32, func_name: &str, reply: HostReply) -> (result:
    Result<HandlerResult, SimulatorError>)
    requires
        old(emu).wf(),
    ensures
        final(emu).wf(),
        same_place(*old(emu), *final(emu)),
        final(emu).cpu.regs.pc == old(emu).cpu.regs.pc,
        called(*old(emu), *final(emu), address, func_name@, reply, result),
        !(result matches Ok(HandlerResult::NotHandled)),
{
    match system::handle(emu, func_name) {
        Ok(HandlerResult::NotHandled) => {},
        result => {
            return result;
        },
    }
    match tasks::handle(emu, func_name) {
        Ok(HandlerResult::NotHandled) => {},
        result => {
            return result;
        },
    }
    match files::handle(emu, func_name, reply) {
        Ok(HandlerResult::NotHandled) => {},
        result => {
            return result;
        },
    }
    match media::handle(emu, func_name) {
        Ok(HandlerResult::NotHandled) => {},
        result => {
            return result;
        },
    }
    let return_address: u32 = emu.argument(RETURN_ADDRESS);
    match emu.unknown_hle.record_unknown_hle(&emu.cpu.regs, func_name, address, return_address) {
        Ok(_) => {},
        Err(error) => {
            return Err(error);
        },
    }
    emu.give(0);
    Ok(HandlerResult::Complete)
}

/// A call keeps the account of the frame that it is made in.
pub proof fn law_calls_keep_the_frame(before: Emulator, after: Emulator, tick: Tick)
    requires
        before.in_tick(&tick),
        after.wf(),
        same_place(before, after),
    ensures
        after.in_tick(&tick),
{
}

} // verus!
