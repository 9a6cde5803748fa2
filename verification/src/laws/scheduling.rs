//! Which contexts run, wait and end.

use crate::cpu::Cpu;
use crate::isa::REGISTER_COUNT;
use crate::laws::registers::put;
use crate::sdk_hle::call::CallState;
use crate::sdk_hle::tasks::{task_call, task_created};
use crate::tasks::{
    is_new_task, law_waiter_is_most_urgent, running_tasks, semaphore_created, semaphore_pended,
    semaphore_posted, task_with_priority, wait_is_over, waiter, waits_for, GuestTask, SchedulerView,
    TaskWait,
};
use vstd::prelude::*;

verus! {

proof fn lemma_task_with_priority(tasks: Seq<GuestTask>, priority: u32, from: int)
    requires
        0 <= from <= tasks.len(),
    ensures
        match task_with_priority(tasks, priority, from) {
            Some(index) => {
                &&& from <= index < tasks.len()
                &&& tasks[index].priority == priority
                &&& forall|i: int| from <= i < index ==> #[trigger] tasks[i].priority != priority
            },
            None => forall|i: int|
                from <= i < tasks.len() ==> #[trigger] tasks[i].priority != priority,
        },
    decreases tasks.len() - from,
{
    if from < tasks.len() {
        lemma_task_with_priority(tasks, priority, from + 1);
    }
}

/// Whether one task was halted and nothing else about the tasks changed.
pub open spec fn halted(before: SchedulerView, after: SchedulerView, index: int) -> bool {
    &&& 0 <= index < before.tasks.len()
    &&& after.tasks.len() == before.tasks.len()
    &&& !after.tasks[index].cpu.running
    &&& after.tasks[index] == (GuestTask {
        cpu: Cpu { running: false, ..before.tasks[index].cpu },
        ..before.tasks[index]
    })
    &&& forall|i: int|
        0 <= i < before.tasks.len() && i != index ==> #[trigger] after.tasks[i] == before.tasks[i]
    &&& after == (SchedulerView { tasks: after.tasks, ..before })
}

/// Whether the priority that a deletion asks for stands for the running context: it is
/// 255, or the one that the running task has.
pub open spec fn names_running(state: SchedulerView, priority: u32) -> bool {
    ||| priority == 255
    ||| state.active_task is Some && state.tasks[state.active_task->0 as int].priority == priority
}

/// Deleting the running context halts it. Else the first task that has exactly the
/// priority that was asked for is halted, and no other one; where none has it, nothing is
/// deleted. The guest is told which.
pub proof fn law_deletion(before: CallState)
    requires
        before.scheduler.wf(),
        before.regs.len() == REGISTER_COUNT,
    ensures
        ({
            let priority = before.regs[4];
            let tasks = before.scheduler.tasks;
            let after = task_call("OSTaskDel"@, before).state;
            if names_running(before.scheduler, priority) {
                &&& !after.running
                &&& after.scheduler == before.scheduler
                &&& put(before.regs, after.regs, 2, 0)
            } else if exists|i: int| 0 <= i < tasks.len() && #[trigger] tasks[i].priority == priority {
                exists|index: int|
                    {
                        &&& #[trigger] halted(before.scheduler, after.scheduler, index)
                        &&& tasks[index].priority == priority
                        &&& forall|i: int|
                            0 <= i < index ==> #[trigger] tasks[i].priority != priority
                        &&& after.running == before.running
                        &&& put(before.regs, after.regs, 2, 0)
                    }
            } else {
                &&& after.scheduler == before.scheduler
                &&& after.running == before.running
                &&& put(before.regs, after.regs, 2, 1)
            }
        }),
        ({
            let after = task_call("OSTaskDel"@, before).state;
            after == (CallState {
                regs: after.regs,
                running: after.running,
                scheduler: after.scheduler,
                ..before
            })
        }),
{
    let priority = before.regs[4];
    lemma_task_with_priority(before.scheduler.tasks, priority, 0);
    if let Some(index) = task_with_priority(before.scheduler.tasks, priority, 0) {
        if !names_running(before.scheduler, priority) {
            assert(halted(
                before.scheduler,
                task_call("OSTaskDel"@, before).state.scheduler,
                index,
            ));
        }
    }
}

/// A new task starts at its entry, with its argument in register four, its entry in
/// register twenty-five, its stack in register twenty-nine and an address that ends it in
/// register thirty-one; its other registers are zero. It runs and waits for nothing.
pub proof fn law_new_tasks(
    task: GuestTask,
    entry: u32,
    data_ptr: u32,
    stack_ptr: u32,
    priority: u32,
)
    requires
        is_new_task(task, entry, data_ptr, stack_ptr, priority),
    ensures
        task.priority == priority,
        task.wait is None,
        task.cpu.running,
        !task.cpu.branch_delay,
        task.cpu.regs.pc == entry,
        ({
            let regs = task.cpu.regs.file();
            &&& regs.len() == REGISTER_COUNT
            &&& regs[4] == data_ptr
            &&& regs[25] == entry
            &&& regs[29] == stack_ptr
            &&& regs[31] == 0xffff_ffff
            &&& forall|i: int|
                0 <= i < REGISTER_COUNT && i != 4 && i != 25 && i != 29 && i != 31
                    ==> #[trigger] regs[i] == 0
        }),
{
}

/// A task is created where there is an entry and room for it. It comes behind the others,
/// which stay as they are, and the guest is told zero; else it is told all ones and
/// nothing changes.
pub proof fn law_creation(before: CallState, after: CallState)
    requires
        before.regs.len() == REGISTER_COUNT,
        task_created(before, after),
    ensures
        ({
            let count = before.scheduler.tasks.len();
            let possible = before.regs[4] != 0 && count < 16;
            &&& put(
                before.regs,
                after.regs,
                2,
                if possible {
                    0
                } else {
                    0xffff_ffff
                },
            )
            &&& after == (CallState { regs: after.regs, scheduler: after.scheduler, ..before })
            &&& !possible ==> after.scheduler == before.scheduler
            &&& possible ==> {
                &&& after.scheduler.tasks.len() == count + 1
                &&& after.scheduler.tasks.take(count as int) == before.scheduler.tasks
                &&& after.scheduler == (SchedulerView {
                    tasks: after.scheduler.tasks,
                    ..before.scheduler
                })
                &&& is_new_task(
                    after.scheduler.tasks[count as int],
                    before.regs[4],
                    before.regs[5],
                    before.regs[6],
                    before.regs[7],
                )
            }
        }),
{
    let count = before.scheduler.tasks.len() as int;
    if before.regs[4] != 0 && count < 16 {
        assert(after.scheduler.tasks.take(count) =~= before.scheduler.tasks);
    }
}

/// A semaphore that was created has its count, and the others theirs.
pub proof fn law_new_semaphores(state: SchedulerView, count: u32)
    ensures
        ({
            let after = semaphore_created(state, count);
            let handle = state.next_semaphore_handle;
            &&& after.semaphores.contains_key(handle) && after.semaphores[handle] == count
            &&& forall|other: u32|
                other != handle ==> (#[trigger] after.semaphores.contains_key(other)
                    <==> state.semaphores.contains_key(other)) && after.semaphores[other]
                    == state.semaphores[other]
            &&& handle < 0xffff_ffff ==> after.next_semaphore_handle == handle + 1
            &&& handle == 0xffff_ffff ==> after.next_semaphore_handle == 1
            &&& after.tasks == state.tasks && after.main_wait == state.main_wait
                && after.active_task == state.active_task && after.scheduler_cursor
                == state.scheduler_cursor
        }),
{
}

/// Waiting for a semaphore takes one from its count and does not wait, or waits where
/// there is none to take. A semaphore that does not exist is not waited for.
pub proof fn law_taking_a_semaphore(state: SchedulerView, handle: u32)
    requires
        state.wf(),
    ensures
        ({
            let after = semaphore_pended(state, handle);
            let exists_ = state.semaphores.contains_key(handle);
            let count = state.semaphores[handle];
            &&& !exists_ ==> after == state
            &&& exists_ && count > 0 ==> {
                &&& after.semaphores.dom() == state.semaphores.dom()
                &&& after.semaphores[handle] + 1 == count
                &&& forall|other: u32|
                    other != handle ==> #[trigger] after.semaphores[other]
                        == state.semaphores[other]
                &&& after.tasks == state.tasks && after.main_wait == state.main_wait
            }
            &&& exists_ && count == 0 ==> {
                &&& after.semaphores == state.semaphores
                &&& match state.active_task {
                    None => after.main_wait == Some(TaskWait::Semaphore(handle)) && after.tasks
                        == state.tasks,
                    Some(index) => {
                        &&& after.main_wait == state.main_wait
                        &&& after.tasks.len() == state.tasks.len()
                        &&& after.tasks[index as int].wait == Some(TaskWait::Semaphore(handle))
                        &&& after.tasks[index as int].cpu == state.tasks[index as int].cpu
                        &&& forall|i: int|
                            0 <= i < state.tasks.len() && i != index ==> #[trigger] after.tasks[i]
                                == state.tasks[i]
                    },
                }
            }
        }),
{
    let after = semaphore_pended(state, handle);
    assert(state.semaphores.contains_key(handle) && state.semaphores[handle] > 0
        ==> after.semaphores.dom() =~= state.semaphores.dom());
}

/// Signalling a semaphore lets one context go on that waits for it: the main one before
/// all tasks, and of those the one with the smallest priority, the first of several. Only
/// where none waits is the signal counted, up to the largest count.
pub proof fn law_signalling_a_semaphore(state: SchedulerView, handle: u32)
    requires
        state.wf(),
        state.semaphores.contains_key(handle),
    ensures
        ({
            let after = semaphore_posted(state, handle);
            let wanted = Some(TaskWait::Semaphore(handle));
            if state.main_wait == wanted {
                after == (SchedulerView { main_wait: None, ..state })
            } else if exists|i: int|
                0 <= i < state.tasks.len() && #[trigger] state.tasks[i].wait == wanted {
                exists|index: int|
                    {
                        &&& 0 <= index < state.tasks.len()
                        &&& #[trigger] state.tasks[index].wait == wanted
                        &&& forall|i: int|
                            0 <= i < state.tasks.len() && #[trigger] state.tasks[i].wait == wanted
                                ==> state.tasks[index].priority <= state.tasks[i].priority && (i
                                < index ==> state.tasks[index].priority < state.tasks[i].priority)
                        &&& after == (SchedulerView {
                            tasks: state.tasks.update(
                                index,
                                GuestTask { wait: None, ..state.tasks[index] },
                            ),
                            ..state
                        })
                    }
            } else {
                &&& after.semaphores.dom() == state.semaphores.dom()
                &&& after.semaphores[handle] == if state.semaphores[handle] == 0xffff_ffff {
                    0xffff_ffff
                } else {
                    state.semaphores[handle] + 1
                }
                &&& forall|other: u32|
                    other != handle ==> #[trigger] after.semaphores[other]
                        == state.semaphores[other]
                &&& after == (SchedulerView { semaphores: after.semaphores, ..state })
            }
        }),
{
    let count = state.tasks.len() as int;
    let after = semaphore_posted(state, handle);
    let wanted = Some(TaskWait::Semaphore(handle));
    law_waiter_is_most_urgent(state.tasks, handle, count);
    if state.main_wait != wanted {
        match waiter(state.tasks, handle, count) {
            Some(index) => {
                assert(waits_for(state.tasks[index], handle));
                assert(state.tasks[index].wait == wanted);
                assert forall|i: int|
                    0 <= i < state.tasks.len() && #[trigger] state.tasks[i].wait
                        == wanted implies state.tasks[index].priority <= state.tasks[i].priority
                    && (i < index ==> state.tasks[index].priority < state.tasks[i].priority) by {
                    assert(waits_for(state.tasks[i], handle));
                }
            },
            None => {
                assert forall|i: int| 0 <= i < state.tasks.len() implies #[trigger] state.tasks[i].wait
                    != wanted by {
                    assert(!waits_for(state.tasks[i], handle));
                }
                assert(after.semaphores.dom() =~= state.semaphores.dom());
            },
        }
    }
}

/// A context that waits for a time goes on when it has come, one that waits for room for
/// sound when there is some, and one that waits for a semaphore by a signal alone.
pub proof fn law_waits_end(cycle_count: u64, deadline: u64, handle: u32, audio_ready: bool)
    ensures
        wait_is_over(TaskWait::UntilCycle(deadline), cycle_count, audio_ready) <==> deadline
            <= cycle_count,
        wait_is_over(TaskWait::AudioWrite, cycle_count, audio_ready) <==> audio_ready,
        !wait_is_over(TaskWait::Semaphore(handle), cycle_count, audio_ready),
{
}

/// At the end of a frame exactly the tasks that run are left, in their order.
pub proof fn law_ended_tasks_are_dropped(tasks: Seq<GuestTask>)
    ensures
        running_tasks(tasks) == tasks.filter(|task: GuestTask| task.cpu.running),
    decreases tasks.len(),
{
    reveal(Seq::filter);
    if tasks.len() > 0 {
        law_ended_tasks_are_dropped(tasks.drop_last());
    }
}

} // verus!
