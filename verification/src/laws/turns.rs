//! How the contexts of the guest share a frame.

use crate::emulator::{
    hook_finished, slice_begun, slice_ended, step_chosen, Emulator, SliceStep, Tick,
};
use crate::error::SimulatorError;
use crate::tasks::TaskWait;
use vstd::prelude::*;

verus! {

/// The context whose turn it is gets at most 4096 cycles, and no more than are left of the
/// frame. It runs with its own registers, where it is not halted and waits for nothing
/// that has not come.
pub proof fn law_slices_begin(
    machine: Emulator,
    machine_after: Emulator,
    tick: Tick,
    tick_after: Tick,
    runs: bool,
)
    requires
        machine.in_tick(&tick),
        tick.slice is None,
        slice_begun(machine, machine_after, tick, tick_after, runs),
    ensures
        ({
            let slice = tick_after.slice->0;
            let state = machine.scheduler@;
            let turn = state.scheduler_cursor as int;
            let is_task = 1 <= turn <= state.tasks.len();
            let wait = if is_task {
                state.tasks[turn - 1].wait
            } else {
                state.main_wait
            };
            let ready = match wait {
                None => true,
                Some(TaskWait::UntilCycle(deadline)) => deadline <= machine.cycle_count,
                Some(TaskWait::AudioWrite) => machine.audio.accepts(),
                Some(TaskWait::Semaphore(_)) => false,
            };
            &&& tick_after.slice is Some
            &&& slice.executed == 0
            &&& slice.cycles <= 4096 && slice.cycles <= tick.remaining_cycles
            &&& slice.cycles == 4096 || slice.cycles == tick.remaining_cycles
            &&& slice.context_count == state.tasks.len() + 1
            &&& tick_after.remaining_cycles == tick.remaining_cycles
            &&& is_task ==> {
                &&& machine_after.scheduler@.active_task == Some((turn - 1) as usize)
                &&& machine_after.cpu == state.tasks[turn - 1].cpu
                &&& slice.parked == Some(machine.cpu)
            }
            &&& !is_task ==> {
                &&& machine_after.scheduler@.active_task is None
                &&& machine_after.cpu == machine.cpu
                &&& slice.parked is None
            }
            &&& runs <==> ready && machine_after.cpu.running
        }),
{
    assert(machine.scheduler@.wf());
}

/// Behind the slice of a context it is the turn of the next one, and behind the last one
/// that of the main one. A task keeps what its registers became, and the main context gets
/// its own back.
pub proof fn law_turns_go_round(
    machine: Emulator,
    machine_after: Emulator,
    tick: Tick,
    tick_after: Tick,
)
    requires
        machine.in_tick(&tick),
        tick.slice is Some,
        machine.scheduler.scheduler_cursor < tick.slice->0.context_count,
        slice_ended(machine, machine_after, tick, tick_after),
    ensures
        ({
            let state = machine.scheduler@;
            let after = machine_after.scheduler@;
            let count = tick.slice->0.context_count as int;
            &&& after.scheduler_cursor == (state.scheduler_cursor + 1) % count
            &&& after.active_task is None
            &&& after.tasks.len() == state.tasks.len()
            &&& forall|i: int|
                0 <= i < state.tasks.len() ==> {
                    let task = #[trigger] after.tasks[i];
                    &&& task.priority == state.tasks[i].priority && task.wait
                        == state.tasks[i].wait
                    &&& state.active_task is Some && state.active_task->Some_0 == i ==> task.cpu
                        == machine.cpu
                    &&& !(state.active_task is Some && state.active_task->Some_0 == i) ==> task.cpu
                        == state.tasks[i].cpu
                }
            &&& tick.slice->0.parked is Some ==> machine_after.cpu == tick.slice->0.parked->0
            &&& tick.slice->0.parked is None ==> machine_after.cpu == machine.cpu
        }),
{
    let cursor = machine.scheduler@.scheduler_cursor as int;
    let count = tick.slice->0.context_count as int;
    if cursor + 1 < count {
        vstd::arithmetic::div_mod::lemma_small_mod((cursor + 1) as nat, count as nat);
    } else {
        vstd::arithmetic::div_mod::lemma_mod_self_0(count);
    }
}

/// A slice takes from the frame the cycles that it ran. Where no context of a whole round
/// could run, the time of a slice passes; and a picture that was submitted ends the frame.
pub proof fn law_time_passes(
    machine: Emulator,
    machine_after: Emulator,
    tick: Tick,
    tick_after: Tick,
)
    requires
        machine.in_tick(&tick),
        tick.slice is Some,
        slice_ended(machine, machine_after, tick, tick_after),
    ensures
        ({
            let slice = tick.slice->0;
            let passed = tick.remaining_cycles - tick_after.remaining_cycles;
            &&& machine.framebuffer_submitted ==> tick_after.remaining_cycles == 0
            &&& !machine.framebuffer_submitted && slice.executed > 0 ==> {
                &&& passed == slice.executed
                &&& tick_after.idle_contexts == 0
            }
            &&& !machine.framebuffer_submitted && slice.executed == 0 && tick.idle_contexts + 1
                >= slice.context_count ==> {
                &&& passed == slice.cycles
                &&& tick_after.idle_contexts == 0
            }
            &&& !machine.framebuffer_submitted && slice.executed == 0 && tick.idle_contexts + 1
                < slice.context_count ==> {
                &&& passed == 0
                &&& tick_after.idle_contexts == tick.idle_contexts + 1
            }
        }),
{
}

/// A slice is over when its cycles are used up, or when a task has returned, which halts
/// it. At a hooked address the function is called, and elsewhere instructions run, two
/// cycles for each, as far as the slice goes.
pub proof fn law_steps_of_a_slice(
    machine: Emulator,
    machine_after: Emulator,
    tick: Tick,
    result: Result<SliceStep, SimulatorError>,
)
    requires
        machine.in_tick(&tick),
        tick.slice is Some,
        step_chosen(machine, machine_after, tick, result),
    ensures
        ({
            let slice = tick.slice->0;
            let left = slice.cycles - slice.executed;
            let pc = machine.cpu.regs.pc;
            let hooked = machine.code.hooks.names@.contains_key(pc);
            &&& left == 0 ==> result == Ok::<SliceStep, SimulatorError>(SliceStep::End)
                && machine_after == machine
            &&& left > 0 && pc == 0xffff_ffff ==> {
                &&& result == Ok::<SliceStep, SimulatorError>(SliceStep::End)
                &&& !machine_after.cpu.running
                &&& machine_after.cpu.regs == machine.cpu.regs
            }
            &&& left > 0 && pc != 0xffff_ffff && result is Ok && hooked ==> result == Ok::<
                SliceStep,
                SimulatorError,
            >(SliceStep::Hook(pc))
            &&& left > 0 && pc != 0xffff_ffff && result is Ok && !hooked ==> {
                &&& result->Ok_0 is Block
                &&& result->Ok_0->Block_0 == pc
                &&& 2 * result->Ok_0->Block_1 == left
            }
            &&& left > 0 && pc != 0xffff_ffff && Some(pc) != machine.code.app_main_entry ==> {
                &&& result is Ok
                &&& machine_after.memory@ == machine.memory@
            }
            &&& left > 0 && pc != 0xffff_ffff && result is Ok
                && machine.scheduler.active_task is None && Some(pc)
                == machine.code.app_main_init_check_address ==> machine_after.cpu.regs.file()[2]
                == 1
        }),
{
    assert(machine.cpu.regs.file().len() == crate::isa::REGISTER_COUNT);
}

/// A frame that is over has taken a sixtieth of a second, of which the processor has 336
/// million cycles.
pub proof fn law_frames_last_a_sixtieth_of_a_second(machine: Emulator, tick: Tick)
    requires
        machine.in_tick(&tick),
        tick.slice is None,
        tick.remaining_cycles == 0,
    ensures
        60 * tick.passed() == 336_000_000,
        machine.cycle_count == (tick.start_cycle + 5_600_000) % 0x1_0000_0000_0000_0000,
{
}

/// Behind a call the context goes on, unless it is halted, a picture was submitted, or it
/// waits for something that has not come. What has come is no longer waited for.
pub proof fn law_contexts_go_on_behind_calls(
    machine: Emulator,
    machine_after: Emulator,
    goes_on: bool,
)
    requires
        machine.scheduler@.wf(),
        hook_finished(machine, machine_after, goes_on),
    ensures
        ({
            let state = machine.scheduler@;
            let after = machine_after.scheduler@;
            let wait = match state.active_task {
                Some(index) => state.tasks[index as int].wait,
                None => state.main_wait,
            };
            let wait_after = match state.active_task {
                Some(index) => after.tasks[index as int].wait,
                None => after.main_wait,
            };
            let ready = match wait {
                None => true,
                Some(TaskWait::UntilCycle(deadline)) => deadline <= machine_after.cycle_count,
                Some(TaskWait::AudioWrite) => machine.audio.accepts(),
                Some(TaskWait::Semaphore(_)) => false,
            };
            &&& goes_on <==> ready && machine.cpu.running && !machine.framebuffer_submitted
            &&& ready && !machine.framebuffer_submitted ==> wait_after is None
            &&& !ready || machine.framebuffer_submitted ==> after == state
            &&& after.semaphores == state.semaphores
            &&& after.tasks.len() == state.tasks.len()
        }),
{
}

} // verus!
