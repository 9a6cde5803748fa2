//! Guest tasks and semaphores.

use crate::cpu::Cpu;
use crate::isa::with_reg;
use std::collections::HashMap;
use vstd::prelude::*;

verus! {

broadcast use vstd::std_specs::hash::group_hash_axioms;

/// Tasks besides the main one that may exist at a time.
pub const MAX_GUEST_TASKS: usize = 16;

/// Return address of a task's entry function.
pub const TASK_RETURN_ADDRESS: u32 = 0xffff_ffff;

/// The priority that stands for the running task.
pub const OS_PRIO_SELF: u32 = 0xff;

/// What a context waits for.
#[derive(Clone, Copy, Debug, PartialEq, Eq, Structural)]
pub enum TaskWait {
    AudioWrite,
    Semaphore(u32),
    UntilCycle(u64),
}

/// A task besides the main one.
#[derive(Clone, Copy, Debug)]
pub struct GuestTask {
    pub cpu: Cpu,
    pub priority: u32,
    pub wait: Option<TaskWait>,
}

/// Contexts, what they wait for, and semaphores.
pub struct Scheduler {
    pub tasks: Vec<GuestTask>,
    pub scheduler_cursor: usize,
    pub main_wait: Option<TaskWait>,
    /// The task whose context runs; none for the main one.
    pub active_task: Option<usize>,
    pub semaphores: HashMap<u32, u32>,
    pub next_semaphore_handle: u32,
}

/// The contents of a scheduler.
#[verifier::ext_equal]
pub struct SchedulerView {
    pub tasks: Seq<GuestTask>,
    pub scheduler_cursor: usize,
    pub main_wait: Option<TaskWait>,
    pub active_task: Option<usize>,
    pub semaphores: Map<u32, u32>,
    pub next_semaphore_handle: u32,
}

impl View for Scheduler {
    type V = SchedulerView;

    open spec fn view(&self) -> SchedulerView {
        SchedulerView {
            tasks: self.tasks@,
            scheduler_cursor: self.scheduler_cursor,
            main_wait: self.main_wait,
            active_task: self.active_task,
            semaphores: self.semaphores@,
            next_semaphore_handle: self.next_semaphore_handle,
        }
    }
}

impl SchedulerView {
    /// There are not too many tasks, and the running one is among them.
    pub open spec fn wf(self) -> bool {
        &&& self.tasks.len() <= MAX_GUEST_TASKS
        &&& self.active_task matches Some(index) ==> index < self.tasks.len()
    }

    /// What the running context waits for.
    pub open spec fn active_wait(self) -> Option<TaskWait> {
        match self.active_task {
            Some(index) => self.tasks[index as int].wait,
            None => self.main_wait,
        }
    }

    /// The running context waits for something else, or for nothing.
    pub open spec fn with_active_wait(self, wait: Option<TaskWait>) -> SchedulerView {
        match self.active_task {
            Some(index) => SchedulerView {
                tasks: self.tasks.update(
                    index as int,
                    GuestTask { wait, ..self.tasks[index as int] },
                ),
                ..self
            },
            None => SchedulerView { main_wait: wait, ..self },
        }
    }
}

/// Whether what a context waits for has come.
pub open spec fn wait_is_over(wait: TaskWait, cycle_count: u64, audio_ready: bool) -> bool {
    match wait {
        TaskWait::AudioWrite => audio_ready,
        TaskWait::UntilCycle(deadline) => cycle_count >= deadline,
        TaskWait::Semaphore(_) => false,
    }
}

/// The semaphore handle behind another one; zero is never used.
pub open spec fn next_semaphore(handle: u32) -> u32 {
    if handle == u32::MAX {
        1
    } else {
        (handle + 1) as u32
    }
}

/// Whether a task waits for a semaphore.
pub open spec fn waits_for(task: GuestTask, handle: u32) -> bool {
    task.wait == Some(TaskWait::Semaphore(handle))
}

/// The first of the most urgent tasks among the first `count` that wait for a semaphore.
pub open spec fn waiter(tasks: Seq<GuestTask>, handle: u32, count: int) -> Option<int>
    decreases count,
{
    if count <= 0 {
        None
    } else {
        let earlier = waiter(tasks, handle, count - 1);
        if waits_for(tasks[count - 1], handle) && (match earlier {
            Some(index) => tasks[count - 1].priority < tasks[index].priority,
            None => true,
        }) {
            Some(count - 1)
        } else {
            earlier
        }
    }
}

/// The first task with a priority.
pub open spec fn task_with_priority(tasks: Seq<GuestTask>, priority: u32, from: int) -> Option<int>
    decreases tasks.len() - from,
{
    if from < 0 || from >= tasks.len() {
        None
    } else if tasks[from].priority == priority {
        Some(from)
    } else {
        task_with_priority(tasks, priority, from + 1)
    }
}

/// After a semaphore was created.
pub open spec fn semaphore_created(state: SchedulerView, count: u32) -> SchedulerView {
    SchedulerView {
        semaphores: state.semaphores.insert(state.next_semaphore_handle, count),
        next_semaphore_handle: next_semaphore(state.next_semaphore_handle),
        ..state
    }
}

/// After the running context waited for a semaphore.
pub open spec fn semaphore_pended(state: SchedulerView, handle: u32) -> SchedulerView {
    if !state.semaphores.contains_key(handle) {
        state
    } else if state.semaphores[handle] > 0 {
        SchedulerView {
            semaphores: state.semaphores.insert(handle, (state.semaphores[handle] - 1) as u32),
            ..state
        }
    } else {
        state.with_active_wait(Some(TaskWait::Semaphore(handle)))
    }
}

/// After a semaphore was signalled: one waiting context goes on, the main one
/// first, then the most urgent; else the signal is counted.
pub open spec fn semaphore_posted(state: SchedulerView, handle: u32) -> SchedulerView {
    let chosen = waiter(state.tasks, handle, state.tasks.len() as int);
    if !state.semaphores.contains_key(handle) {
        state
    } else if state.main_wait == Some(TaskWait::Semaphore(handle)) {
        SchedulerView { main_wait: None, ..state }
    } else if chosen is Some {
        SchedulerView {
            tasks: state.tasks.update(
                chosen->0,
                GuestTask { wait: None, ..state.tasks[chosen->0] },
            ),
            ..state
        }
    } else {
        SchedulerView {
            semaphores: state.semaphores.insert(
                handle,
                if state.semaphores[handle] == u32::MAX {
                    u32::MAX
                } else {
                    (state.semaphores[handle] + 1) as u32
                },
            ),
            ..state
        }
    }
}

/// The chosen waiter waits for the semaphore, no other waiter is more urgent,
/// and none in front of it is as urgent.
pub proof fn law_waiter_is_most_urgent(tasks: Seq<GuestTask>, handle: u32, count: int)
    requires
        0 <= count <= tasks.len(),
    ensures
        match waiter(tasks, handle, count) {
            Some(index) => {
                &&& 0 <= index < count
                &&& waits_for(tasks[index], handle)
                &&& forall|i: int|
                    0 <= i < count && waits_for(#[trigger] tasks[i], handle)
                        ==> tasks[index].priority <= tasks[i].priority
                &&& forall|i: int|
                    0 <= i < index && waits_for(#[trigger] tasks[i], handle)
                        ==> tasks[index].priority < tasks[i].priority
            },
            None => forall|i: int| 0 <= i < count ==> !waits_for(#[trigger] tasks[i], handle),
        },
    decreases count,
{
    if count > 0 {
        law_waiter_is_most_urgent(tasks, handle, count - 1);
    }
}

/// A context that waits for an empty semaphore goes on when it is signalled, and
/// everything is as before.
pub proof fn law_signal_ends_the_wait_of_the_main_context(state: SchedulerView, handle: u32)
    requires
        state.wf(),
        state.active_task is None,
        state.main_wait is None,
        state.semaphores.contains_key(handle),
        state.semaphores[handle] == 0,
    ensures
        semaphore_pended(state, handle).main_wait == Some(TaskWait::Semaphore(handle)),
        semaphore_posted(semaphore_pended(state, handle), handle) == state,
{
    assert(semaphore_posted(semaphore_pended(state, handle), handle) =~= state);
}

/// A signal that nobody waits for is kept for the next wait.
pub proof fn law_signal_is_kept(state: SchedulerView, handle: u32)
    requires
        state.wf(),
        state.semaphores.contains_key(handle),
        state.semaphores[handle] < u32::MAX,
        state.main_wait != Some(TaskWait::Semaphore(handle)),
        waiter(state.tasks, handle, state.tasks.len() as int) is None,
    ensures
        semaphore_pended(semaphore_posted(state, handle), handle) == state,
{
    assert(semaphore_pended(semaphore_posted(state, handle), handle).semaphores
        =~= state.semaphores);
}

/// A new task: its context starts at its entry, with its argument and its stack.
pub open spec fn is_new_task(
    task: GuestTask,
    entry: u32,
    data_ptr: u32,
    stack_ptr: u32,
    priority: u32,
) -> bool {
    let zero = Seq::new(crate::isa::REGISTER_COUNT as nat, |i: int| 0u32);
    &&& task.priority == priority
    &&& task.wait is None
    &&& task.cpu.running
    &&& task.cpu.is_fresh()
    &&& task.cpu.regs.pc == entry
    &&& task.cpu.regs.file() == with_reg(
        with_reg(with_reg(with_reg(zero, 4, data_ptr), 25, entry), 29, stack_ptr),
        31,
        TASK_RETURN_ADDRESS,
    )
}

impl Scheduler {
    pub open spec fn wf(&self) -> bool {
        self@.wf()
    }

    /// Only the main context.
    pub fn new() -> (scheduler: Scheduler)
        ensures
            scheduler.wf(),
            scheduler@ == (SchedulerView {
                tasks: Seq::empty(),
                scheduler_cursor: 0,
                main_wait: None,
                active_task: None,
                semaphores: Map::empty(),
                next_semaphore_handle: 1,
            }),
    {
        Scheduler {
            tasks: Vec::new(),
            scheduler_cursor: 0,
            main_wait: None,
            active_task: None,
            semaphores: HashMap::new(),
            next_semaphore_handle: 1,
        }
    }

    fn set_wait(&mut self, wait: Option<TaskWait>)
        requires
            old(self).wf(),
        ensures
            final(self).wf(),
            final(self)@ == old(self)@.with_active_wait(wait),
    {
        match self.active_task {
            Some(index) => {
                let mut task = self.tasks[index];
                task.wait = wait;
                self.tasks.set(index, task);
            },
            None => {
                self.main_wait = wait;
            },
        }
    }

    /// Lets the running context wait.
    pub fn set_active_wait(&mut self, wait: TaskWait)
        requires
            old(self).wf(),
        ensures
            final(self).wf(),
            final(self)@ == old(self)@.with_active_wait(Some(wait)),
    {
        self.set_wait(Some(wait));
    }

    /// Lets the running context go on.
    pub fn clear_active_wait(&mut self)
        requires
            old(self).wf(),
        ensures
            final(self).wf(),
            final(self)@ == old(self)@.with_active_wait(None),
    {
        self.set_wait(None);
    }

    /// Whether the running context still waits. A wait that is over is ended.
    pub fn active_context_waiting(&mut self, cycle_count: u64, audio_ready: bool) -> (waiting: bool)
        requires
            old(self).wf(),
        ensures
            final(self).wf(),
            match old(self)@.active_wait() {
                Some(wait) => if wait_is_over(wait, cycle_count, audio_ready) {
                    &&& !waiting
                    &&& final(self)@ == old(self)@.with_active_wait(None)
                } else {
                    &&& waiting
                    &&& final(self)@ == old(self)@
                },
                None => {
                    &&& !waiting
                    &&& final(self)@ == old(self)@
                },
            },
    {
        let wait = match self.active_task {
            Some(index) => self.tasks[index].wait,
            None => self.main_wait,
        };
        let over: bool = match wait {
            None => {
                return false;
            },
            Some(TaskWait::AudioWrite) => audio_ready,
            Some(TaskWait::UntilCycle(deadline)) => cycle_count >= deadline,
            Some(TaskWait::Semaphore(_)) => false,
        };
        if over {
            self.clear_active_wait();
        }
        !over
    }

    /// Lets the running context wait for a cycle that is still to come.
    pub fn delay_active_until(&mut self, deadline: u64, cycle_count: u64)
        requires
            old(self).wf(),
        ensures
            final(self).wf(),
            final(self)@ == if deadline > cycle_count {
                old(self)@.with_active_wait(Some(TaskWait::UntilCycle(deadline)))
            } else {
                old(self)@
            },
    {
        if deadline > cycle_count {
            self.set_active_wait(TaskWait::UntilCycle(deadline));
        }
    }

    /// Creates a task. Returns whether there was an entry and room.
    pub fn create_guest_task(
        &mut self,
        entry: u32,
        data_ptr: u32,
        stack_ptr: u32,
        priority: u32,
    ) -> (created: bool)
        requires
            old(self).wf(),
        ensures
            final(self).wf(),
            created == (entry != 0 && old(self)@.tasks.len() < MAX_GUEST_TASKS),
            !created ==> final(self)@ == old(self)@,
            created ==> {
                &&& final(self)@ == (SchedulerView {
                    tasks: final(self)@.tasks,
                    ..old(self)@
                })
                &&& final(self)@.tasks == old(self)@.tasks.push(final(self)@.tasks.last())
                &&& is_new_task(
                    final(self)@.tasks.last(),
                    entry,
                    data_ptr,
                    stack_ptr,
                    priority,
                )
            },
    {
        if entry == 0 || self.tasks.len() >= MAX_GUEST_TASKS {
            return false;
        }
        let mut cpu = Cpu::new(entry);
        cpu.regs.write(4, data_ptr);
        cpu.regs.write(25, entry);
        cpu.regs.write(29, stack_ptr);
        cpu.regs.write(31, TASK_RETURN_ADDRESS);
        cpu.start();
        self.tasks.push(GuestTask { cpu, priority, wait: None });
        true
    }

    /// Deletes a task: the running one, whose context is `cpu`, or the first one
    /// with the priority. Returns whether there was one.
    pub fn delete_guest_task(&mut self, cpu: &mut Cpu, priority: u32) -> (deleted: bool)
        requires
            old(self).wf(),
        ensures
            final(self).wf(),
            ({
                let state = old(self)@;
                let running = priority == OS_PRIO_SELF || (state.active_task is Some
                    && state.tasks[state.active_task->0 as int].priority == priority);
                let found = task_with_priority(state.tasks, priority, 0);
                if running {
                    &&& deleted
                    &&& *final(cpu) == (Cpu { running: false, ..*old(cpu) })
                    &&& final(self)@ == state
                } else if found is Some {
                    &&& deleted
                    &&& *final(cpu) == *old(cpu)
                    &&& final(self)@ == (SchedulerView {
                        tasks: state.tasks.update(
                            found->0,
                            GuestTask {
                                cpu: Cpu { running: false, ..state.tasks[found->0].cpu },
                                ..state.tasks[found->0]
                            },
                        ),
                        ..state
                    })
                } else {
                    &&& !deleted
                    &&& *final(cpu) == *old(cpu)
                    &&& final(self)@ == state
                }
            }),
            deleted == (priority == OS_PRIO_SELF || exists|i: int|
                0 <= i < old(self)@.tasks.len() && #[trigger] old(self)@.tasks[i].priority
                    == priority),
            forall|i: int|
                0 <= i < old(self)@.tasks.len() && #[trigger] final(self)@.tasks[i]
                    != old(self)@.tasks[i] ==> {
                    &&& old(self)@.tasks[i].priority == priority
                    &&& !final(self)@.tasks[i].cpu.running
                    &&& forall|j: int|
                        0 <= j < i ==> #[trigger] old(self)@.tasks[j].priority != priority
                },
    {
        if priority == OS_PRIO_SELF {
            cpu.stop();
            return true;
        }
        if let Some(index) = self.active_task {
            if self.tasks[index].priority == priority {
                cpu.stop();
                return true;
            }
        }
        let mut index: usize = 0;
        while index < self.tasks.len()
            invariant
                index <= self.tasks@.len(),
                self@ == old(self)@,
                self.wf(),
                *cpu == *old(cpu),
                task_with_priority(self.tasks@, priority, 0) == task_with_priority(
                    self.tasks@,
                    priority,
                    index as int,
                ),
                priority != OS_PRIO_SELF,
                self.active_task matches Some(active) ==> self.tasks@[active as int].priority
                    != priority,
                forall|i: int| 0 <= i < index ==> #[trigger] self.tasks@[i].priority != priority,
            decreases self.tasks@.len() - index,
        {
            if self.tasks[index].priority == priority {
                let mut task = self.tasks[index];
                task.cpu.stop();
                self.tasks.set(index, task);
                return true;
            }
            index = index + 1;
        }
        false
    }

    /// Creates a semaphore. Returns its handle.
    pub fn create_semaphore(&mut self, count: u32) -> (handle: u32)
        requires
            old(self).wf(),
        ensures
            final(self).wf(),
            handle == old(self).next_semaphore_handle,
            final(self)@ == semaphore_created(old(self)@, count),
    {
        let handle: u32 = self.next_semaphore_handle;
        self.next_semaphore_handle = if handle == u32::MAX {
            1
        } else {
            handle + 1
        };
        let _ = self.semaphores.insert(handle, count);
        handle
    }

    /// Lets the running context wait for a semaphore. Returns whether it exists.
    pub fn pend_semaphore(&mut self, handle: u32) -> (exists_: bool)
        requires
            old(self).wf(),
        ensures
            final(self).wf(),
            exists_ == old(self)@.semaphores.contains_key(handle),
            final(self)@ == semaphore_pended(old(self)@, handle),
    {
        let count: u32 = match self.semaphores.get(&handle) {
            Some(count) => *count,
            None => {
                return false;
            },
        };
        if count > 0 {
            let _ = self.semaphores.insert(handle, count - 1);
        } else {
            self.set_active_wait(TaskWait::Semaphore(handle));
        }
        true
    }

    /// Signals a semaphore. Returns whether it exists.
    pub fn post_semaphore(&mut self, handle: u32) -> (exists_: bool)
        requires
            old(self).wf(),
        ensures
            final(self).wf(),
            exists_ == old(self)@.semaphores.contains_key(handle),
            final(self)@ == semaphore_posted(old(self)@, handle),
    {
        let count: u32 = match self.semaphores.get(&handle) {
            Some(count) => *count,
            None => {
                return false;
            },
        };
        if let Some(TaskWait::Semaphore(waited)) = self.main_wait {
            if waited == handle {
                self.main_wait = None;
                return true;
            }
        }
        let chosen: Option<usize> = self.find_waiter(handle);
        proof {
            law_waiter_is_most_urgent(self.tasks@, handle, self.tasks@.len() as int);
        }
        match chosen {
            Some(index) => {
                let mut task = self.tasks[index];
                task.wait = None;
                self.tasks.set(index, task);
            },
            None => {
                let _ = self.semaphores.insert(
                    handle,
                    if count == u32::MAX {
                        u32::MAX
                    } else {
                        count + 1
                    },
                );
            },
        }
        true
    }

    fn find_waiter(&self, handle: u32) -> (chosen: Option<usize>)
        ensures
            match waiter(self.tasks@, handle, self.tasks@.len() as int) {
                Some(index) => chosen matches Some(found) && found == index && found
                    < self.tasks@.len(),
                None => chosen is None,
            },
    {
        let mut chosen: Option<usize> = None;
        let mut index: usize = 0;
        while index < self.tasks.len()
            invariant
                index <= self.tasks@.len(),
                match waiter(self.tasks@, handle, index as int) {
                    Some(expected) => chosen matches Some(found) && found == expected && found
                        < index,
                    None => chosen is None,
                },
            decreases self.tasks@.len() - index,
        {
            let waits: bool = match self.tasks[index].wait {
                Some(TaskWait::Semaphore(waited)) => waited == handle,
                _ => false,
            };
            if waits {
                let better: bool = match chosen {
                    Some(found) => self.tasks[index].priority < self.tasks[found].priority,
                    None => true,
                };
                if better {
                    chosen = Some(index);
                }
            }
            index = index + 1;
        }
        chosen
    }

    /// Deletes a semaphore. Returns whether it existed.
    pub fn delete_semaphore(&mut self, handle: u32) -> (existed: bool)
        requires
            old(self).wf(),
        ensures
            final(self).wf(),
            existed == old(self)@.semaphores.contains_key(handle),
            final(self)@ == (SchedulerView {
                semaphores: old(self)@.semaphores.remove(handle),
                ..old(self)@
            }),
    {
        self.semaphores.remove(&handle).is_some()
    }

    /// Drops the tasks that do not run any more.
    pub fn retain_running(&mut self)
        requires
            old(self).wf(),
            old(self).active_task is None,
        ensures
            final(self).wf(),
            final(self)@ == (SchedulerView {
                tasks: running_tasks(old(self)@.tasks),
                ..old(self)@
            }),
    {
        let mut kept: Vec<GuestTask> = Vec::new();
        let mut index: usize = 0;
        assert(self.tasks@.take(0) =~= Seq::<GuestTask>::empty());
        while index < self.tasks.len()
            invariant
                index <= self.tasks@.len(),
                self@ == old(self)@,
                kept@.len() <= index,
                kept@ == running_tasks(self.tasks@.take(index as int)),
            decreases self.tasks@.len() - index,
        {
            assert(self.tasks@.take(index + 1).drop_last() =~= self.tasks@.take(index as int));
            if self.tasks[index].cpu.is_running() {
                kept.push(self.tasks[index]);
            }
            index = index + 1;
        }
        assert(self.tasks@.take(index as int) =~= self.tasks@);
        self.tasks = kept;
    }
}

/// The tasks that run, in order.
pub open spec fn running_tasks(tasks: Seq<GuestTask>) -> Seq<GuestTask>
    decreases tasks.len(),
{
    if tasks.len() == 0 {
        Seq::empty()
    } else if tasks.last().cpu.running {
        running_tasks(tasks.drop_last()).push(tasks.last())
    } else {
        running_tasks(tasks.drop_last())
    }
}

} // verus!
