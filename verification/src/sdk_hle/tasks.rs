//! Task and semaphore functions.

use crate::emulator::Emulator;
use crate::error::SimulatorError;
use crate::memory::{accessible, put_byte, Width};
use crate::sdk_hle::call::{result_is, CallOutcome, CallState, HandlerResult};
use crate::tasks::{
    is_new_task, semaphore_created, semaphore_pended, semaphore_posted, task_with_priority,
    GuestTask, MAX_GUEST_TASKS, OS_PRIO_SELF, SchedulerView,
};
use crate::cpu::Cpu;
use crate::text::text_equal;
use vstd::prelude::*;
use vstd::string::*;

verus! {

/// What deleting a task leaves: the running task stops with the processor.
pub open spec fn task_deleted(before: CallState, priority: u32) -> CallState {
    let state = before.scheduler;
    let found = task_with_priority(state.tasks, priority, 0);
    if deletes_running(state, priority) {
        CallState { running: false, ..before }
    } else if found is Some {
        let task = state.tasks[found->0];
        CallState {
            scheduler: SchedulerView {
                tasks: state.tasks.update(
                    found->0,
                    GuestTask { cpu: Cpu { running: false, ..task.cpu }, ..task },
                ),
                ..state
            },
            ..before
        }
    } else {
        before
    }
}

/// Whether a priority stands for the running task.
pub open spec fn deletes_running(state: SchedulerView, priority: u32) -> bool {
    priority == OS_PRIO_SELF || (state.active_task is Some
        && state.tasks[state.active_task->0 as int].priority == priority)
}

/// Reports success through a pointer, where there is one.
pub open spec fn flagged(state: CallState, pointer: u32, success: bool) -> CallOutcome {
    let after = CallState {
        memory: put_byte(
            state.memory,
            pointer,
            if success {
                0
            } else {
                1
            },
        ),
        ..state
    };
    if pointer == 0 {
        state.complete()
    } else if accessible(pointer, Width::Byte) {
        after.complete()
    } else {
        after.unmapped(pointer)
    }
}

/// What the guest is told of success.
pub open spec fn status(success: bool) -> u32 {
    if success {
        0
    } else {
        1
    }
}

/// What each function does, but for the creation of a task.
pub open spec fn task_call(name: Seq<char>, before: CallState) -> CallOutcome {
    let handle = before.argument(4);
    let pointer = before.argument(6);
    let exists_ = before.scheduler.semaphores.contains_key(handle);
    if name == "OSTaskDel"@ {
        task_deleted(before, handle).returning(
            status(
                deletes_running(before.scheduler, handle) || task_with_priority(
                    before.scheduler.tasks,
                    handle,
                    0,
                ) is Some,
            ),
        )
    } else if name == "OSSemCreate"@ {
        CallState {
            scheduler: semaphore_created(before.scheduler, handle),
            ..before
        }.returning(before.scheduler.next_semaphore_handle)
    } else if name == "OSSemPend"@ {
        flagged(
            CallState { scheduler: semaphore_pended(before.scheduler, handle), ..before },
            pointer,
            exists_,
        )
    } else if name == "OSSemPost"@ {
        CallState {
            scheduler: semaphore_posted(before.scheduler, handle),
            ..before
        }.returning(status(exists_))
    } else if name == "OSSemDel"@ {
        let removed = flagged(
            CallState {
                scheduler: SchedulerView {
                    semaphores: before.scheduler.semaphores.remove(handle),
                    ..before.scheduler
                },
                ..before
            },
            pointer,
            exists_,
        );
        match removed.result {
            Ok(_) => removed.state.returning(0),
            Err(_) => removed,
        }
    } else {
        CallOutcome { state: before, result: Ok(HandlerResult::NotHandled) }
    }
}

/// Whether a task was created with the arguments of a call, and the call told so.
pub open spec fn task_created(before: CallState, after: CallState) -> bool {
    let created = before.argument(4) != 0 && before.scheduler.tasks.len() < MAX_GUEST_TASKS;
    &&& after == CallState { scheduler: after.scheduler, ..before }.returning(
        if created {
            0
        } else {
            u32::MAX
        },
    ).state
    &&& if created {
        &&& after.scheduler == (SchedulerView {
            tasks: before.scheduler.tasks.push(after.scheduler.tasks.last()),
            ..before.scheduler
        })
        &&& is_new_task(
            after.scheduler.tasks.last(),
            before.argument(4),
            before.argument(5),
            before.argument(6),
            before.argument(7),
        )
    } else {
        after.scheduler == before.scheduler
    }
}

/// Reports success through a pointer, where there is one.
fn flag(emu: &mut Emulator, pointer: u32, success: bool) -> (result: Result<(), SimulatorError>)
    requires
        old(emu).wf(),
    ensures
        final(emu).wf(),
        final(emu).same_besides_call(old(emu)),
        ({
            let expected = flagged(old(emu).call_state(), pointer, success);
            &&& final(emu).call_state() == expected.state
            &&& result is Ok ==> expected.result == Ok::<HandlerResult, u32>(
                HandlerResult::Complete,
            )
            &&& result matches Err(error) ==> expected.result == Err::<HandlerResult, u32>(
                pointer,
            ) && error == (SimulatorError::UnmappedAddress { address: pointer })
        }),
{
    if pointer != 0 {
        emu.memory.write_u8(
            pointer,
            if success {
                0
            } else {
                1
            },
        )
    } else {
        Ok(())
    }
}

/// Whether a function of this name is handled here.
pub open spec fn is_task_function(name: Seq<char>) -> bool {
    ||| name == "OSTaskCreate"@
    ||| name == "OSTaskDel"@
    ||| name == "OSSemCreate"@
    ||| name == "OSSemPend"@
    ||| name == "OSSemPost"@
    ||| name == "OSSemDel"@
}

/// What a call does to the machine.
pub open spec fn task_effect(
    name: Seq<char>,
    before: Emulator,
    after: Emulator,
    result: Result<HandlerResult, SimulatorError>,
) -> bool {
    &&& after.same_besides_call(&before)
    &&& if name == "OSTaskCreate"@ {
        &&& task_created(before.call_state(), after.call_state())
        &&& result == Ok::<HandlerResult, SimulatorError>(HandlerResult::Complete)
    } else {
        let expected = task_call(name, before.call_state());
        &&& after.call_state() == expected.state
        &&& result_is(result, expected.result)
    }
}

/// Carries out one of these functions.
pub fn handle(emu: &mut Emulator, func_name: &str) -> (result: Result<
    HandlerResult,
    SimulatorError,
>)
    requires
        old(emu).wf(),
    ensures
        final(emu).wf(),
        task_effect(func_name@, *old(emu), *final(emu), result),
        result matches Ok(HandlerResult::NotHandled) ==> *final(emu) == *old(emu),
        result matches Ok(HandlerResult::NotHandled) <==> !is_task_function(func_name@),
{
    if text_equal(func_name, "OSTaskCreate") {
        let entry: u32 = emu.argument(4);
        let data_ptr: u32 = emu.argument(5);
        let stack_ptr: u32 = emu.argument(6);
        let priority: u32 = emu.argument(7);
        let created = emu.scheduler.create_guest_task(entry, data_ptr, stack_ptr, priority);
        emu.give(
            if created {
                0
            } else {
                u32::MAX
            },
        );
    } else if text_equal(func_name, "OSTaskDel") {
        let priority: u32 = emu.argument(4);
        let deleted = emu.scheduler.delete_guest_task(&mut emu.cpu, priority);
        emu.give(
            if deleted {
                0
            } else {
                1
            },
        );
    } else if text_equal(func_name, "OSSemCreate") {
        let count: u32 = emu.argument(4);
        let handle: u32 = emu.scheduler.create_semaphore(count);
        emu.give(handle);
    } else if text_equal(func_name, "OSSemPend") {
        let handle: u32 = emu.argument(4);
        let error_ptr: u32 = emu.argument(6);
        let pending = emu.scheduler.pend_semaphore(handle);
        match flag(emu, error_ptr, pending) {
            Ok(_) => {},
            Err(error) => {
                return Err(error);
            },
        }
    } else if text_equal(func_name, "OSSemPost") {
        let handle: u32 = emu.argument(4);
        let posted = emu.scheduler.post_semaphore(handle);
        emu.give(
            if posted {
                0
            } else {
                1
            },
        );
    } else if text_equal(func_name, "OSSemDel") {
        let handle: u32 = emu.argument(4);
        let error_ptr: u32 = emu.argument(6);
        let removed = emu.scheduler.delete_semaphore(handle);
        match flag(emu, error_ptr, removed) {
            Ok(_) => {},
            Err(error) => {
                return Err(error);
            },
        }
        emu.give(0);
    } else {
        return Ok(HandlerResult::NotHandled);
    }
    Ok(HandlerResult::Complete)
}

} // verus!
