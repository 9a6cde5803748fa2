//! How an application starts and runs.

use crate::app_image::{AppImage, Symbol};
use crate::cpu::{interpret, Cpu, CpuState, Interpreted, UnknownInstructionPolicy};
use crate::emulator::{
    after_separator, app_file_name, context_installed, context_left, export_address, fresh_memory,
    import_hooks, initial_registers, interpreted_run, load_obstacle, loaded_memory, main_args,
    Emulator, InterpretedRun,
};
use crate::error::SimulatorError;
use crate::isa::REGISTER_COUNT;
use crate::laws::blocks::{
    law_blocks_are_written, law_heap_blocks_are_apart, law_words_are_written, lemma_run, lies_at,
};
use crate::laws::places::{cell, lemma_segments, same_besides, spot, together};
use crate::memory::{allocation, put_bytes, MemoryView};
use crate::tasks::SchedulerView;
use crate::text::utf16_encoded;
use vstd::prelude::*;

verus! {

/// The name of a file is what stands behind the last separator of its path.
pub proof fn law_names_of_files(path: Seq<char>)
    ensures
        ({
            let name = after_separator(path);
            let front = path.len() - name.len();
            &&& 0 <= front
            &&& path.skip(front) == name
            &&& forall|i: int| 0 <= i < name.len() ==> #[trigger] name[i] != '/' && name[i] != '\\'
            &&& front > 0 ==> path[front - 1] == '/' || path[front - 1] == '\\'
        }),
        path.len() > 0 ==> app_file_name(path) == after_separator(path),
    decreases path.len(),
{
    let name = after_separator(path);
    if path.len() == 0 {
        assert(path.skip(0) =~= path);
    } else if path.last() == '/' || path.last() == '\\' {
        assert(path.skip(path.len() as int) =~= name);
    } else {
        let shorter = path.drop_last();
        law_names_of_files(shorter);
        let earlier = after_separator(shorter);
        let front = path.len() - name.len();
        assert(path.skip(front) =~= shorter.skip(front).push(path.last()));
        assert forall|i: int| 0 <= i < name.len() implies #[trigger] name[i] != '/' && name[i]
            != '\\' by {
            if i < earlier.len() {
                assert(name[i] == earlier[i]);
            }
        }
    }
}

proof fn lemma_export(exports: Seq<Symbol>, name: Seq<char>, from: int)
    requires
        0 <= from <= exports.len(),
    ensures
        match export_address(exports, name, from) {
            Some(address) => exists|i: int|
                {
                    &&& from <= i < exports.len()
                    &&& (#[trigger] exports[i]).name@ == name
                    &&& exports[i].address == address
                    &&& forall|j: int| from <= j < i ==> (#[trigger] exports[j]).name@ != name
                },
            None => forall|i: int|
                from <= i < exports.len() ==> (#[trigger] exports[i]).name@ != name,
        },
    decreases exports.len() - from,
{
    if from < exports.len() && exports[from].name@ != name {
        lemma_export(exports, name, from + 1);
    }
}

/// An exported function is found by its name, the first one of several.
pub proof fn law_exported_functions(exports: Seq<Symbol>, name: Seq<char>)
    ensures
        match export_address(exports, name, 0) {
            Some(address) => exists|i: int|
                {
                    &&& 0 <= i < exports.len()
                    &&& (#[trigger] exports[i]).name@ == name
                    &&& exports[i].address == address
                    &&& forall|j: int| 0 <= j < i ==> (#[trigger] exports[j]).name@ != name
                },
            None => forall|i: int| 0 <= i < exports.len() ==> (#[trigger] exports[i]).name@ != name,
        },
{
    lemma_export(exports, name, 0);
}

/// Whether an imported function is called at an address: at its own one, or at that
/// without its upper three bits.
pub open spec fn called_at(import: Symbol, address: u32) -> bool {
    import.address == address || import.address % 0x2000_0000 == address
}

/// An imported function is called at its address and at that without the upper three
/// bits, and nothing else is; of several at one address the last one counts.
pub proof fn law_imported_functions(imports: Seq<Symbol>, address: u32)
    ensures
        ({
            let hooks = import_hooks(imports);
            &&& hooks.contains_key(address) <==> exists|i: int|
                0 <= i < imports.len() && #[trigger] called_at(imports[i], address)
            &&& hooks.contains_key(address) ==> exists|i: int|
                {
                    &&& 0 <= i < imports.len()
                    &&& #[trigger] called_at(imports[i], address)
                    &&& hooks[address] == imports[i].name
                    &&& forall|j: int|
                        i < j < imports.len() ==> !#[trigger] called_at(imports[j], address)
                }
        }),
    decreases imports.len(),
{
    if imports.len() > 0 {
        let earlier = imports.drop_last();
        let last = imports.len() - 1;
        law_imported_functions(earlier, address);
        lemma_segments(imports.last().address);
        let hooks = import_hooks(imports);
        if called_at(imports[last], address) {
            assert(hooks[address] == imports[last].name);
        } else {
            assert(import_hooks(earlier).contains_key(address) == hooks.contains_key(address));
            if hooks.contains_key(address) {
                let i = choose|i: int|
                    {
                        &&& 0 <= i < earlier.len()
                        &&& #[trigger] called_at(earlier[i], address)
                        &&& import_hooks(earlier)[address] == earlier[i].name
                        &&& forall|j: int|
                            i < j < earlier.len() ==> !#[trigger] called_at(earlier[j], address)
                    };
                assert(called_at(imports[i], address));
                assert forall|j: int| i < j < imports.len() implies !#[trigger] called_at(
                    imports[j],
                    address,
                ) by {
                    if j < earlier.len() {
                        assert(!called_at(earlier[j], address));
                    }
                }
            } else {
                assert forall|i: int| 0 <= i < imports.len() implies !#[trigger] called_at(
                    imports[i],
                    address,
                ) by {
                    if i < earlier.len() {
                        assert(!called_at(earlier[i], address));
                    }
                }
            }
        }
    }
}

/// An application starts with its stack below the end of memory and with a flag that says
/// whether it lies at another place than the usual one. Where it has a main function, it
/// returns there, and register twenty-five holds its entry. All other registers are zero.
pub proof fn law_registers_at_the_start(app: AppImage)
    ensures
        ({
            let regs = initial_registers(app);
            let main = export_address(app.exports@, "AppMain"@, 0);
            &&& regs.len() == REGISTER_COUNT
            &&& regs[29] == 0x01ff_fff0
            &&& regs[5] == if app.load_base == 0x80a0_0000 {
                0u32
            } else {
                1
            }
            &&& regs[31] == match main {
                Some(address) => address,
                None => 0,
            }
            &&& regs[25] == if main is Some {
                app.entry_point
            } else {
                0
            }
            &&& forall|i: int|
                0 <= i < REGISTER_COUNT && i != 29 && i != 5 && i != 31 && i != 25
                    ==> #[trigger] regs[i] == 0
        }),
{
}

/// A loaded application lies at its address, which is one of the three at which a byte is
/// seen. All other memory is zero.
pub proof fn law_applications_are_loaded(app: AppImage)
    requires
        app.executable@.len() > 0,
        together(app.load_base as int, app.executable@.len() as int),
        !spot(app.load_base as int)->Some_0.0,
    ensures
        load_obstacle(app) is None,
        ({
            let memory = loaded_memory(app);
            let first = spot(app.load_base as int)->0;
            let end = first.1 + app.executable@.len();
            &&& memory.sized()
            &&& lies_at(memory, first, app.executable@)
            &&& forall|i: int|
                0 <= i < memory.ram.len() && !(first.1 <= i < end) ==> #[trigger] memory.ram[i]
                    == 0
            &&& forall|i: int|
                0 <= i < memory.framebuffer.len() ==> #[trigger] memory.framebuffer[i] == 0
        }),
{
    let bytes = app.executable@;
    let length = bytes.len() as int;
    let fresh = fresh_memory();
    let physical = app.load_base & 0x1fff_ffff;
    let first = spot(app.load_base as int)->0;
    lemma_segments(app.load_base);
    lemma_run(app.load_base, length);
    assert(spot(physical as int) == Some(first));
    assert(together(physical as int, length));
    lemma_run(physical, length);
    law_blocks_are_written(fresh, app.load_base, bytes);
    let once = put_bytes(fresh, app.load_base, bytes);
    law_blocks_are_written(once, physical, bytes);
    let twice = if physical != app.load_base {
        put_bytes(once, physical, bytes)
    } else {
        once
    };
    assert(together(0x1400_0000, 153_600));
    lemma_run(0x1400_0000, 153_600);
    let black = Seq::new(153_600, |i: int| 0u8);
    law_blocks_are_written(twice, 0x1400_0000, black);
    let memory = loaded_memory(app);
    assert(memory == put_bytes(twice, 0x1400_0000, black));
    assert forall|i: int| 0 <= i < bytes.len() implies #[trigger] cell(
        memory,
        (first.0, first.1 + i),
    ) == bytes[i] by {
        assert(cell(twice, (first.0, first.1 + i)) == bytes[i]);
    }
    assert forall|i: int| 0 <= i < memory.framebuffer.len() implies #[trigger] memory.framebuffer[i]
        == 0 by {
        if i < 153_600 {
            assert(cell(memory, (true, 0 + i)) == black[i]);
        }
    }
}

/// The main function is given a pointer to the file name of the application, as wide
/// characters with a zero behind them, in a new block of the heap.
pub proof fn law_the_main_function_gets_its_name(
    app_path: Seq<char>,
    entry: Option<u32>,
    regs: Seq<u32>,
    memory: MemoryView,
    heap_next: u32,
)
    requires
        regs.len() == REGISTER_COUNT,
        memory.sized(),
        0x0180_0000 <= heap_next,
        heap_next % 8 == 0,
        heap_next + 2 * utf16_encoded(app_file_name(app_path)).len() + 2 <= 0x01f0_0000,
    ensures
        ({
            let effect = main_args(app_path, entry, regs, memory, heap_next);
            let words = utf16_encoded(app_file_name(app_path));
            let pointer = effect.regs[4];
            let size = 2 * words.len() + 2;
            &&& effect.error is None
            &&& heap_next <= pointer && pointer + size <= effect.heap_next <= 0x01f0_0000
            &&& entry is Some ==> effect.regs[25] == entry->0
            &&& forall|i: int|
                0 <= i < regs.len() && i != 4 && i != 25 ==> #[trigger] effect.regs[i] == regs[i]
            &&& entry is None ==> effect.regs[25] == regs[25]
            &&& same_besides(memory, effect.memory, (false, pointer as int), size as int)
            &&& forall|i: int|
                0 <= i < words.len() ==> {
                    &&& cell(effect.memory, (false, pointer + 2 * i)) == #[trigger] words[i] % 256
                    &&& cell(effect.memory, (false, pointer + 2 * i + 1)) == words[i] / 256
                }
            &&& cell(effect.memory, (false, pointer + 2 * words.len())) == 0
            &&& cell(effect.memory, (false, pointer + 2 * words.len() + 1)) == 0
        }),
{
    let words = utf16_encoded(app_file_name(app_path));
    let wide = words.push(0);
    let size = (2 * wide.len()) as u32;
    law_heap_blocks_are_apart(heap_next, size, 0);
    let pointer = allocation(heap_next, size);
    assert(together(pointer as int, 2 * wide.len() as int));
    law_words_are_written(memory, pointer, wide);
    let effect = main_args(app_path, entry, regs, memory, heap_next);
    assert forall|i: int| 0 <= i < words.len() implies {
        &&& cell(effect.memory, (false, pointer + 2 * i)) == #[trigger] words[i] % 256
        &&& cell(effect.memory, (false, pointer + 2 * i + 1)) == words[i] / 256
    } by {
        assert(wide[i] == words[i]);
        assert(cell(effect.memory, (false, pointer as int + 2 * i)) == wide[i] % 256);
        assert(cell(effect.memory, (false, pointer as int + 2 * i + 1)) == wide[i] / 256);
    }
    let last = words.len() as int;
    assert(wide[last] == 0);
    assert(cell(effect.memory, (false, pointer as int + 2 * last)) == wide[last] % 256);
    assert(cell(effect.memory, (false, pointer as int + 2 * last + 1)) == wide[last] / 256);
}

/// A run of one instruction does what the instruction does, and counts it where it was
/// carried out.
pub proof fn law_runs_of_one_instruction(
    state: CpuState,
    memory: MemoryView,
    code: Seq<u32>,
    index: int,
    policy: UnknownInstructionPolicy,
)
    requires
        0 <= index < code.len(),
    ensures
        interpreted_run(state, memory, code, index, index + 1, policy) == match interpret(
            state,
            memory,
            code[index],
            policy,
        ) {
            Interpreted::Done(after, contents) => InterpretedRun {
                completed: index + 1,
                state: after,
                memory: contents,
                error: None,
            },
            Interpreted::Unmapped(address) => InterpretedRun {
                completed: index,
                state,
                memory,
                error: Some(SimulatorError::UnmappedAddress { address }),
            },
            Interpreted::Unknown => InterpretedRun {
                completed: index,
                state,
                memory,
                error: Some(SimulatorError::UnknownInstruction { instruction: code[index] }),
            },
        },
{
    if let Interpreted::Done(after, contents) = interpret(state, memory, code[index], policy) {
        assert(interpreted_run(after, contents, code, index + 1, index + 1, policy)
            == (InterpretedRun {
            completed: index + 1,
            state: after,
            memory: contents,
            error: None,
        }));
    }
}

/// A run goes on where a shorter one ended: unless that ended early, or its last
/// instruction led elsewhere.
#[verifier::rlimit(60)]
#[verifier::spinoff_prover]
pub proof fn law_runs_can_be_cut(
    state: CpuState,
    memory: MemoryView,
    code: Seq<u32>,
    index: int,
    cut: int,
    limit: int,
    policy: UnknownInstructionPolicy,
)
    requires
        0 <= index <= cut <= limit,
        cut <= code.len(),
    ensures
        ({
            let part = interpreted_run(state, memory, code, index, cut, policy);
            let whole = interpreted_run(state, memory, code, index, limit, policy);
            let straight = 4 * (part.completed - index);
            &&& index <= part.completed <= cut
            &&& index <= whole.completed <= limit
            &&& part.error is Some || part.completed < cut ==> whole == part
            &&& part.error is None && part.completed == cut ==> {
                ||| whole == interpreted_run(part.state, part.memory, code, cut, limit, policy)
                ||| whole == part && index < cut && part.state.pc != (state.pc + straight)
                    % 0x1_0000_0000
            }
        }),
    decreases cut - index,
{
    if index < cut {
        match interpret(state, memory, code[index], policy) {
            Interpreted::Done(after, contents) => {
                if after.pc == state.pc.wrapping_add(4) {
                    law_runs_can_be_cut(after, contents, code, index + 1, cut, limit, policy);
                }
            },
            _ => {},
        }
    } else {
        law_run_bounds(state, memory, code, index, limit, policy);
    }
}

/// A run counts instructions up to its limit at most.
pub proof fn law_run_bounds(
    state: CpuState,
    memory: MemoryView,
    code: Seq<u32>,
    index: int,
    limit: int,
    policy: UnknownInstructionPolicy,
)
    requires
        0 <= index <= limit,
    ensures
        index <= interpreted_run(state, memory, code, index, limit, policy).completed <= limit,
    decreases code.len() - index,
{
    if index < code.len() && index < limit {
        match interpret(state, memory, code[index], policy) {
            Interpreted::Done(after, contents) => {
                law_run_bounds(after, contents, code, index + 1, limit, policy);
            },
            _ => {},
        }
    }
}

/// The context whose turn it is runs: the main one at zero, then the tasks in their
/// order; behind the last one it is the main one's turn again.
pub proof fn law_contexts_take_turns(state: SchedulerView)
    requires
        state.tasks.len() < usize::MAX,
    ensures
        ({
            let turn = state.scheduler_cursor as int;
            let after = context_installed(state);
            &&& turn == 0 || turn > state.tasks.len() ==> after.active_task is None
                && after.scheduler_cursor == 0
            &&& 1 <= turn <= state.tasks.len() ==> after.active_task is Some
                && after.active_task->Some_0 + 1 == turn && after.scheduler_cursor == turn
            &&& after.tasks == state.tasks && after.semaphores == state.semaphores
                && after.main_wait == state.main_wait
        }),
{
}

/// A task that is left keeps its registers, and no other task changes.
pub proof fn law_contexts_are_kept(state: SchedulerView, cpu: Cpu)
    requires
        state.wf(),
    ensures
        ({
            let after = context_left(state, cpu);
            &&& after.active_task is None
            &&& after.tasks.len() == state.tasks.len()
            &&& after.main_wait == state.main_wait && after.semaphores == state.semaphores
            &&& after.scheduler_cursor == state.scheduler_cursor
            &&& forall|i: int|
                0 <= i < state.tasks.len() ==> {
                    let task = #[trigger] after.tasks[i];
                    &&& task.priority == state.tasks[i].priority
                    &&& task.wait == state.tasks[i].wait
                    &&& state.active_task is Some && state.active_task->Some_0 == i ==> task.cpu
                        == cpu
                    &&& !(state.active_task is Some && state.active_task->Some_0 == i) ==> task.cpu
                        == state.tasks[i].cpu
                }
        }),
{
}

/// A machine that has loaded an application is at its entry, with an empty heap, no task,
/// no open file, nothing held and nothing counted. The startup check of the main function
/// lies 52 bytes behind its beginning.
pub proof fn law_fresh_machines(machine: Emulator, app: AppImage)
    requires
        machine.freshly_loaded(app),
    ensures
        machine.cpu.regs.pc == app.entry_point,
        machine.memory.heap_next == 0x0180_0000,
        machine.frame_count == 0,
        machine.cycle_count == 0,
        machine.input.buttons == 0,
        machine.input.repeat_delay == 24,
        machine.input.repeat_period == 6,
        !machine.input.swap_ab,
        machine.scheduler@.tasks.len() == 0,
        machine.scheduler@.active_task is None,
        machine.scheduler@.main_wait is None,
        machine.scheduler@.next_semaphore_handle == 1,
        forall|handle: u32| !#[trigger] machine.scheduler@.semaphores.contains_key(handle),
        forall|handle: u32| !#[trigger] machine.files.files@.contains_key(handle),
        machine.files.next_file_handle == 1,
        machine.audio.config is None,
        machine.audio.volume == 100,
        machine.audio.master_volume == 100,
        !machine.audio.muted,
        ({
            let main = export_address(app.exports@, "AppMain"@, 0);
            let check = machine.code.app_main_init_check_address;
            &&& main is None ==> check is None
            &&& main is Some ==> check is Some && check->0 == (main->0 + 52) % 0x1_0000_0000
        }),
{
}

} // verus!
