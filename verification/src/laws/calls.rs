//! What calls of the operating system do for the guest.

use crate::isa::REGISTER_COUNT;
use crate::laws::blocks::{
    behind, found, law_blocks_are_read, law_blocks_are_written, law_heap_blocks_are_apart,
    law_runs_end_at_the_first_gap, law_strings_end_at_zero, law_words_are_written, lemma_run,
    lies_at, served,
};
use crate::laws::places::{
    cell, law_addresses_that_are_served, law_reads_are_little_endian, law_writes_are_little_endian,
    little_endian, same_besides, spot, together,
};
use crate::laws::registers::put;
use crate::memory::{
    accessible_prefix, allocation, bytes_at, guest_read, put_byte, put_bytes, MemoryView, Width,
};
use crate::printf::formatted;
use crate::sdk_hle::call::{CallOutcome, CallState, HandlerResult};
use crate::sdk_hle::system::{
    ansi_byte, ansi_bytes_from, delay_call, elapsed, memset_call, model_name, system_call,
};
use crate::sdk_hle::tasks::task_call;
use crate::tasks::{semaphore_created, semaphore_pended, semaphore_posted, TaskWait};
use crate::text::c_string;
use vstd::prelude::*;

verus! {

/// Whether a call was carried out, gave a value to the guest and changed, besides that,
/// only memory.
pub open spec fn gives(before: CallState, outcome: CallOutcome, word: u32) -> bool {
    &&& outcome.result == Ok::<HandlerResult, u32>(HandlerResult::Complete)
    &&& put(before.regs, outcome.state.regs, 2, word)
    &&& outcome.state == (CallState {
        regs: outcome.state.regs,
        memory: outcome.state.memory,
        ..before
    })
}

/// No two functions of the system have the same name.
proof fn lemma_names()
    ensures
        "__icache_invalidate_all"@.len() == 23,
        "malloc"@.len() == 6,
        "malloc"@[0] == 'm',
        "malloc"@[1] == 'a',
        "free"@.len() == 4,
        "realloc"@.len() == 7,
        "realloc"@[0] == 'r',
        "memset"@.len() == 6,
        "memset"@[0] == 'm',
        "memset"@[1] == 'e',
        "memset"@[3] == 's',
        "memcpy"@.len() == 6,
        "memcpy"@[0] == 'm',
        "memcpy"@[1] == 'e',
        "memcpy"@[3] == 'c',
        "strlen"@.len() == 6,
        "strlen"@[0] == 's',
        "__to_locale_ansi"@.len() == 16,
        "__to_locale_ansi"@[0] == '_',
        "cmGetSysModel"@.len() == 13,
        "get_current_language"@.len() == 20,
        "U8TOU16"@.len() == 7,
        "U8TOU16"@[0] == 'U',
        "U8TOU16"@[4] == 'U',
        "U8TOU16"@[5] == '1',
        "U8TOX16"@.len() == 7,
        "U8TOX16"@[0] == 'U',
        "U8TOX16"@[4] == 'X',
        "U8TOX16"@[5] == '1',
        "U8TOU32"@.len() == 7,
        "U8TOU32"@[0] == 'U',
        "U8TOU32"@[4] == 'U',
        "U8TOU32"@[5] == '3',
        "U8TOX32"@.len() == 7,
        "U8TOX32"@[0] == 'U',
        "U8TOX32"@[4] == 'X',
        "U8TOX32"@[5] == '3',
        "OSTimeGet"@.len() == 9,
        "OSTimeGet"@[6] == 'G',
        "GetTickCount"@.len() == 12,
        "GetTickCount"@[0] == 'G',
        "delay_ms"@.len() == 8,
        "delay_ms"@[0] == 'd',
        "mdelay"@.len() == 6,
        "mdelay"@[0] == 'm',
        "mdelay"@[1] == 'd',
        "StartSwTimer"@.len() == 12,
        "StartSwTimer"@[0] == 'S',
        "OSTimeDly"@.len() == 9,
        "OSTimeDly"@[6] == 'D',
        "udelay"@.len() == 6,
        "udelay"@[0] == 'u',
        "vxGoHome"@.len() == 8,
        "vxGoHome"@[0] == 'v',
        "abort"@.len() == 5,
        "TaskMediaFunStop"@.len() == 16,
        "TaskMediaFunStop"@[0] == 'T',
        "sprintf"@.len() == 7,
        "sprintf"@[0] == 's',
        "printf"@.len() == 6,
        "printf"@[0] == 'p',
        "fprintf"@.len() == 7,
        "fprintf"@[0] == 'f',
        "__dcache_writeback_all"@.len() == 22,
{
    reveal_strlit("__icache_invalidate_all");
    reveal_strlit("malloc");
    reveal_strlit("free");
    reveal_strlit("realloc");
    reveal_strlit("memset");
    reveal_strlit("memcpy");
    reveal_strlit("strlen");
    reveal_strlit("__to_locale_ansi");
    reveal_strlit("cmGetSysModel");
    reveal_strlit("get_current_language");
    reveal_strlit("U8TOU16");
    reveal_strlit("U8TOX16");
    reveal_strlit("U8TOU32");
    reveal_strlit("U8TOX32");
    reveal_strlit("OSTimeGet");
    reveal_strlit("GetTickCount");
    reveal_strlit("delay_ms");
    reveal_strlit("mdelay");
    reveal_strlit("StartSwTimer");
    reveal_strlit("OSTimeDly");
    reveal_strlit("udelay");
    reveal_strlit("vxGoHome");
    reveal_strlit("abort");
    reveal_strlit("TaskMediaFunStop");
    reveal_strlit("sprintf");
    reveal_strlit("printf");
    reveal_strlit("fprintf");
    reveal_strlit("__dcache_writeback_all");
}

/// No two functions of tasks have the same name.
proof fn lemma_task_names()
    ensures
        "OSTaskDel"@.len() == 9,
        "OSTaskDel"@[2] == 'T',
        "OSSemCreate"@.len() == 11,
        "OSSemPend"@.len() == 9,
        "OSSemPend"@[2] == 'S',
        "OSSemPend"@[6] == 'e',
        "OSSemPost"@.len() == 9,
        "OSSemPost"@[2] == 'S',
        "OSSemPost"@[6] == 'o',
        "OSSemDel"@.len() == 8,
{
    reveal_strlit("OSTaskDel");
    reveal_strlit("OSSemCreate");
    reveal_strlit("OSSemPend");
    reveal_strlit("OSSemPost");
    reveal_strlit("OSSemDel");
}

/// Setting memory makes every byte of a block the lower byte of a value, and changes no
/// other one.
pub proof fn law_memory_is_set(before: CallState, cycle_count: u64)
    requires
        before.regs.len() == REGISTER_COUNT,
        before.memory.sized(),
        before.regs[6] > 0,
        together(before.regs[4] as int, before.regs[6] as int),
    ensures
        ({
            let outcome = system_call("memset"@, before, cycle_count);
            let after = outcome.state.memory;
            let first = spot(before.regs[4] as int)->0;
            let size = before.regs[6] as int;
            &&& gives(before, outcome, before.regs[4])
            &&& same_besides(before.memory, after, first, size)
            &&& forall|i: int|
                0 <= i < size ==> #[trigger] cell(after, (first.0, first.1 + i)) == before.regs[5]
                    % 256
        }),
{
    lemma_names();
    let size = before.regs[6];
    let byte = (before.regs[5] % 0x100) as u8;
    lemma_run(before.regs[4], size as int);
    law_blocks_are_written(before.memory, before.regs[4], Seq::new(size as nat, |i: int| byte));
}

/// Copying memory makes every byte of one block what the byte of the other block was, and
/// changes no other one.
pub proof fn law_memory_is_copied(before: CallState, cycle_count: u64)
    requires
        before.regs.len() == REGISTER_COUNT,
        before.memory.sized(),
        before.regs[6] > 0,
        together(before.regs[4] as int, before.regs[6] as int),
        together(before.regs[5] as int, before.regs[6] as int),
    ensures
        ({
            let outcome = system_call("memcpy"@, before, cycle_count);
            let after = outcome.state.memory;
            let to = spot(before.regs[4] as int)->0;
            let from = spot(before.regs[5] as int)->0;
            let size = before.regs[6] as int;
            &&& gives(before, outcome, before.regs[4])
            &&& same_besides(before.memory, after, to, size)
            &&& forall|i: int|
                0 <= i < size ==> #[trigger] cell(after, (to.0, to.1 + i)) == cell(
                    before.memory,
                    (from.0, from.1 + i),
                )
        }),
{
    lemma_names();
    let size = before.regs[6];
    let from = spot(before.regs[5] as int)->0;
    let bytes = bytes_at(before.memory, before.regs[5], size as nat);
    lemma_run(before.regs[4], size as int);
    lemma_run(before.regs[5], size as int);
    law_blocks_are_read(before.memory, before.regs[5], size as nat);
    assert(bytes.take(size as int) =~= bytes);
    law_blocks_are_written(before.memory, before.regs[4], bytes);
    let to = spot(before.regs[4] as int)->0;
    let after = system_call("memcpy"@, before, cycle_count).state.memory;
    assert forall|i: int| 0 <= i < size implies #[trigger] cell(after, (to.0, to.1 + i)) == cell(
        before.memory,
        (from.0, from.1 + i),
    ) by {
        assert(cell(after, (to.0, to.1 + i)) == bytes[i]);
    }
}

/// A block of the heap is given out as the heap has room for it, and nothing in memory
/// changes.
pub proof fn law_blocks_are_given_out(before: CallState, cycle_count: u64)
    requires
        before.regs.len() == REGISTER_COUNT,
        0x0180_0000 <= before.heap_next <= 0x01f0_0000,
        before.heap_next % 8 == 0,
    ensures
        ({
            let outcome = system_call("malloc"@, before, cycle_count);
            let block = outcome.state.regs[2];
            let size = before.regs[4];
            let next = outcome.state.heap_next;
            &&& outcome.result == Ok::<HandlerResult, u32>(HandlerResult::Complete)
            &&& put(before.regs, outcome.state.regs, 2, block)
            &&& outcome.state == (CallState {
                regs: outcome.state.regs,
                heap_next: next,
                ..before
            })
            &&& block == 0 <==> before.heap_next + size > 0x01f0_0000
            &&& block == 0 ==> next == before.heap_next
            &&& block != 0 ==> {
                &&& block % 8 == 0
                &&& before.heap_next <= block
                &&& block + size <= next <= 0x01f0_0000
            }
        }),
{
    lemma_names();
    law_heap_blocks_are_apart(before.heap_next, before.regs[4], 0);
}

/// A block that is enlarged moves, with what it held.
pub proof fn law_enlarged_blocks_keep_their_bytes(before: CallState, cycle_count: u64)
    requires
        before.regs.len() == REGISTER_COUNT,
        before.memory.sized(),
        0x0180_0000 <= before.heap_next <= 0x01f0_0000,
        before.heap_next % 8 == 0,
        before.heap_next + before.regs[5] <= 0x01f0_0000,
        before.regs[5] > 0,
        before.regs[4] != 0,
        together(before.regs[4] as int, before.regs[5] as int),
    ensures
        ({
            let outcome = system_call("realloc"@, before, cycle_count);
            let after = outcome.state.memory;
            let block = outcome.state.regs[2];
            let from = spot(before.regs[4] as int)->0;
            let size = before.regs[5] as int;
            &&& outcome.result == Ok::<HandlerResult, u32>(HandlerResult::Complete)
            &&& block >= before.heap_next
            &&& block + size <= outcome.state.heap_next <= 0x01f0_0000
            &&& same_besides(before.memory, after, (false, block as int), size)
            &&& forall|i: int|
                0 <= i < size ==> #[trigger] cell(after, (false, block + i)) == cell(
                    before.memory,
                    (from.0, from.1 + i),
                )
        }),
{
    lemma_names();
    let size = before.regs[5];
    let block = allocation(before.heap_next, size);
    law_heap_blocks_are_apart(before.heap_next, size, 0);
    lemma_run(before.regs[4], size as int);
    let bytes = bytes_at(before.memory, before.regs[4], size as nat);
    law_blocks_are_read(before.memory, before.regs[4], size as nat);
    assert(together(block as int, size as int));
    lemma_run(block, size as int);
    assert(bytes.take(size as int) =~= bytes);
    law_blocks_are_written(before.memory, block, bytes);
    let from = spot(before.regs[4] as int)->0;
    let after = system_call("realloc"@, before, cycle_count).state.memory;
    assert forall|i: int| 0 <= i < size implies #[trigger] cell(after, (false, block + i)) == cell(
        before.memory,
        (from.0, from.1 + i),
    ) by {
        assert(cell(after, (false, block as int + i)) == bytes[i]);
    }
}

/// The length of a string counts its bytes before the first zero.
pub proof fn law_strings_are_measured(before: CallState, cycle_count: u64)
    requires
        before.regs.len() == REGISTER_COUNT,
        before.memory.sized(),
    ensures
        ({
            let outcome = system_call("strlen"@, before, cycle_count);
            let length = outcome.state.regs[2];
            let start = before.regs[4];
            &&& gives(before, outcome, length)
            &&& outcome.state.memory == before.memory
            &&& forall|i: int|
                0 <= i < length ==> {
                    &&& #[trigger] found(before.memory, behind(start, i)) is Some
                    &&& found(before.memory, behind(start, i)) != Some(0u8)
                }
            &&& length < u32::MAX ==> found(before.memory, behind(start, length as int)) is None
                || found(before.memory, behind(start, length as int)) == Some(0u8)
        }),
{
    lemma_names();
    law_strings_end_at_zero(before.memory, before.regs[4]);
}

/// A value is fetched through a pointer with its least significant byte first: two bytes
/// or four, as the name says.
pub proof fn law_values_are_fetched(before: CallState, cycle_count: u64)
    requires
        before.regs.len() == REGISTER_COUNT,
        before.memory.sized(),
    ensures
        together(before.regs[4] as int, 2) ==> {
            let value = little_endian(before.memory, spot(before.regs[4] as int)->0, 2) as u32;
            &&& gives(before, system_call("U8TOU16"@, before, cycle_count), value)
            &&& gives(before, system_call("U8TOX16"@, before, cycle_count), value)
        },
        together(before.regs[4] as int, 4) ==> {
            let value = little_endian(before.memory, spot(before.regs[4] as int)->0, 4) as u32;
            &&& gives(before, system_call("U8TOU32"@, before, cycle_count), value)
            &&& gives(before, system_call("U8TOX32"@, before, cycle_count), value)
        },
{
    lemma_names();
    if together(before.regs[4] as int, 2) {
        law_reads_are_little_endian(before.memory, before.regs[4], Width::Half);
    }
    if together(before.regs[4] as int, 4) {
        law_reads_are_little_endian(before.memory, before.regs[4], Width::Word);
    }
}

/// Whether a time in units, of which there are so many in a second, has passed after some
/// cycles, of which there are 336 million in a second.
pub open spec fn has_passed(units: int, cycles: int, per_second: int) -> bool {
    336_000_000 * units <= per_second * cycles < 336_000_000 * (units + 1)
}

proof fn lemma_elapsed(cycle_count: u64, per_second: int)
    requires
        0 <= per_second * cycle_count <= u64::MAX,
    ensures
        ({
            let units = per_second * cycle_count / 336_000_000;
            &&& has_passed(units, cycle_count as int, per_second)
            &&& elapsed(cycle_count, per_second) == units % 0x1_0000_0000
        }),
{
    assert(per_second * cycle_count == cycle_count * per_second) by (nonlinear_arith);
}

/// The guest's clocks count hundredths and millionths of a second, as far as a word
/// counts them.
pub proof fn law_clocks(before: CallState, cycle_count: u64)
    requires
        before.regs.len() == REGISTER_COUNT,
    ensures
        100 * cycle_count <= u64::MAX ==> exists|units: int| #[trigger]
            has_passed(units, cycle_count as int, 100) && gives(
                before,
                system_call("OSTimeGet"@, before, cycle_count),
                (units % 0x1_0000_0000) as u32,
            ),
        1_000_000 * cycle_count <= u64::MAX ==> exists|units: int| #[trigger]
            has_passed(units, cycle_count as int, 1_000_000) && gives(
                before,
                system_call("GetTickCount"@, before, cycle_count),
                (units % 0x1_0000_0000) as u32,
            ),
{
    lemma_names();
    if 100 * cycle_count <= u64::MAX {
        lemma_elapsed(cycle_count, 100);
    }
    if 1_000_000 * cycle_count <= u64::MAX {
        lemma_elapsed(cycle_count, 1_000_000);
    }
}

/// Whether a call made the running context wait for so many units of time, of which there
/// are so many in a second, and did nothing else.
pub open spec fn waits_for_units(
    before: CallState,
    outcome: CallOutcome,
    cycle_count: u64,
    units: int,
    per_second: int,
) -> bool {
    let state = before.scheduler;
    let after = outcome.state.scheduler;
    let wait = match state.active_task {
        Some(index) => after.tasks[index as int].wait,
        None => after.main_wait,
    };
    &&& outcome.result == Ok::<HandlerResult, u32>(HandlerResult::Complete)
    &&& outcome.state == (CallState { scheduler: after, ..before })
    &&& 336_000_000 * units < per_second ==> after == state
    &&& 336_000_000 * units >= per_second ==> {
        &&& wait matches Some(TaskWait::UntilCycle(deadline)) && {
            &&& deadline > cycle_count
            &&& per_second * (deadline - cycle_count) <= 336_000_000 * units < per_second * (
            deadline - cycle_count + 1)
        }
        &&& after.semaphores == state.semaphores
        &&& after.tasks.len() == state.tasks.len()
        &&& state.active_task is Some ==> after.main_wait == state.main_wait
        &&& forall|i: int|
            0 <= i < state.tasks.len() && state.active_task != Some(i as usize)
                ==> #[trigger] after.tasks[i] == state.tasks[i]
    }
}

proof fn lemma_delay(before: CallState, cycle_count: u64, per_second: int)
    requires
        before.regs.len() == REGISTER_COUNT,
        before.scheduler.wf(),
        cycle_count <= 0x7fff_ffff_ffff_ffff,
        100 <= per_second <= 1_000_000,
    ensures
        waits_for_units(
            before,
            delay_call(before, cycle_count, per_second),
            cycle_count,
            before.regs[4] as int,
            per_second,
        ),
{
    let total = before.regs[4] * 336_000_000;
    let cycles = total / per_second;
    assert(per_second * cycles <= total < per_second * (cycles + 1) && 0 <= cycles <= total && (total
        >= per_second ==> cycles >= 1) && (total < per_second ==> cycles == 0)) by (nonlinear_arith)
        requires
            per_second >= 1,
            total >= 0,
            cycles == total / per_second,
    ;
    let outcome = delay_call(before, cycle_count, per_second);
    let state = before.scheduler;
    let after = outcome.state.scheduler;
    if total >= per_second {
        let deadline = (cycle_count + cycles) as u64;
        assert(after == state.with_active_wait(Some(TaskWait::UntilCycle(deadline))));
    }
}

/// Waiting for a number of milliseconds, microseconds or ticks of a hundredth of a second
/// takes the cycles that pass in them.
pub proof fn law_delays(before: CallState, cycle_count: u64)
    requires
        before.regs.len() == REGISTER_COUNT,
        before.scheduler.wf(),
        cycle_count <= 0x7fff_ffff_ffff_ffff,
    ensures
        ({
            let units = before.regs[4] as int;
            &&& waits_for_units(
                before,
                system_call("delay_ms"@, before, cycle_count),
                cycle_count,
                units,
                1_000,
            )
            &&& waits_for_units(
                before,
                system_call("mdelay"@, before, cycle_count),
                cycle_count,
                units,
                1_000,
            )
            &&& waits_for_units(
                before,
                system_call("OSTimeDly"@, before, cycle_count),
                cycle_count,
                units,
                100,
            )
            &&& waits_for_units(
                before,
                system_call("udelay"@, before, cycle_count),
                cycle_count,
                units,
                1_000_000,
            )
        }),
{
    lemma_names();
    lemma_delay(before, cycle_count, 1_000);
    lemma_delay(before, cycle_count, 100);
    lemma_delay(before, cycle_count, 1_000_000);
}

/// A wide character is one byte of text where it is a printable character of seven bits,
/// and a question mark elsewhere. The text ends with the only zero in it.
pub proof fn law_wide_text_becomes_bytes(memory: MemoryView, pointer: u32, index: int)
    requires
        0 <= index <= 511,
    ensures
        match ansi_bytes_from(memory, pointer, index) {
            Some(bytes) => {
                let length = bytes.len() - 1;
                &&& 0 <= length <= 511 - index
                &&& bytes[length] == 0
                &&& forall|i: int|
                    0 <= i < length ==> {
                        let byte = #[trigger] bytes[i];
                        let word = guest_read(
                            memory,
                            pointer.wrapping_add((2 * (index + i)) as u32),
                            Width::Half,
                        );
                        &&& 32 <= byte <= 126
                        &&& word is Some && word != Some(0u32)
                        &&& 32 <= word->0 <= 126 ==> byte == word->0
                        &&& !(32 <= word->0 <= 126) ==> byte as char == '?'
                    }
                &&& length < 511 - index ==> guest_read(
                    memory,
                    pointer.wrapping_add((2 * (index + length)) as u32),
                    Width::Half,
                ) == Some(0u32)
            },
            None => true,
        },
    decreases 511 - index,
{
    if index < 511 {
        law_wide_text_becomes_bytes(memory, pointer, index + 1);
        let word = guest_read(
            memory,
            pointer.wrapping_add((2 * index) as u32),
            Width::Half,
        );
        if word is Some && word != Some(0u32) {
            if let Some(rest) = ansi_bytes_from(memory, pointer, index + 1) {
                let bytes = ansi_bytes_from(memory, pointer, index)->0;
                assert(bytes == seq![ansi_byte(word->0 as u16)] + rest);
                assert forall|i: int| 0 <= i < bytes.len() - 1 implies {
                    let byte = #[trigger] bytes[i];
                    let word = guest_read(
                        memory,
                        pointer.wrapping_add((2 * (index + i)) as u32),
                        Width::Half,
                    );
                    &&& 32 <= byte <= 126
                    &&& word is Some && word != Some(0u32)
                    &&& 32 <= word->0 <= 126 ==> byte == word->0
                    &&& !(32 <= word->0 <= 126) ==> byte as char == '?'
                } by {
                    if i > 0 {
                        assert(bytes[i] == rest[i - 1]);
                        assert(2 * (index + i) == 2 * (index + 1 + (i - 1)));
                    } else {
                        assert(bytes[0] == ansi_byte(word->0 as u16));
                    }
                }
                assert(bytes[bytes.len() - 1] == rest[rest.len() - 1]);
            }
        }
    }
}

/// Formatted text is written with a zero behind it, and its length in bytes is given.
pub proof fn law_formatted_text_is_written(before: CallState, cycle_count: u64, text: Seq<char>)
    requires
        before.regs.len() == REGISTER_COUNT,
        before.memory.sized(),
        formatted(c_string(before.memory, before.regs[5]), before.regs, before.memory)
            == Ok::<Seq<char>, u32>(text),
        together(before.regs[4] as int, 1 + vstd::utf8::encode_utf8(text).len() as int),
    ensures
        ({
            let outcome = system_call("sprintf"@, before, cycle_count);
            let bytes = vstd::utf8::encode_utf8(text);
            let first = spot(before.regs[4] as int)->0;
            &&& gives(before, outcome, bytes.len() as u32)
            &&& same_besides(before.memory, outcome.state.memory, first, 1 + bytes.len() as int)
            &&& lies_at(outcome.state.memory, first, bytes)
            &&& cell(outcome.state.memory, (first.0, first.1 + bytes.len())) == 0
        }),
{
    lemma_names();
    let bytes = vstd::utf8::encode_utf8(text);
    let all = bytes.push(0);
    lemma_run(before.regs[4], all.len() as int);
    law_blocks_are_written(before.memory, before.regs[4], all);
    assert(all.take(all.len() as int) =~= all);
    let after = system_call("sprintf"@, before, cycle_count).state.memory;
    let first = spot(before.regs[4] as int)->0;
    assert forall|i: int| 0 <= i < bytes.len() implies #[trigger] cell(
        after,
        (first.0, first.1 + i),
    ) == bytes[i] by {
        assert(cell(after, (first.0, first.1 + i)) == all[i]);
    }
    assert(cell(after, (first.0, first.1 + bytes.len())) == all[bytes.len() as int]);
}

/// Wide text is converted into a buffer of 512 bytes, which is taken from the heap for
/// the first conversion and kept for the ones after it. The guest is given the buffer.
pub proof fn law_converted_text_is_written(before: CallState, cycle_count: u64)
    requires
        before.regs.len() == REGISTER_COUNT,
        before.memory.sized(),
        0x0180_0000 <= before.heap_next <= 0x01f0_0000,
        before.heap_next % 8 == 0,
        before.heap_next + 512 <= 0x01f0_0000,
        before.locale_ansi_buffer matches Some(buffer) ==> together(buffer as int, 512) && buffer
            != before.regs[4],
        ansi_bytes_from(before.memory, before.regs[4], 0) is Some,
    ensures
        ({
            let outcome = system_call("__to_locale_ansi"@, before, cycle_count);
            let bytes = ansi_bytes_from(before.memory, before.regs[4], 0)->0;
            let buffer = outcome.state.regs[2];
            &&& outcome.result == Ok::<HandlerResult, u32>(HandlerResult::Complete)
            &&& outcome.state.locale_ansi_buffer == Some(buffer)
            &&& match before.locale_ansi_buffer {
                Some(earlier) => buffer == earlier && outcome.state.heap_next == before.heap_next,
                None => before.heap_next <= buffer && buffer + 512 <= outcome.state.heap_next,
            }
            &&& same_besides(
                before.memory,
                outcome.state.memory,
                spot(buffer as int)->0,
                bytes.len() as int,
            )
            &&& lies_at(outcome.state.memory, spot(buffer as int)->0, bytes)
        }),
{
    lemma_names();
    law_wide_text_becomes_bytes(before.memory, before.regs[4], 0);
    law_heap_blocks_are_apart(before.heap_next, 512, 0);
    let bytes = ansi_bytes_from(before.memory, before.regs[4], 0)->0;
    let buffer = match before.locale_ansi_buffer {
        Some(buffer) => buffer,
        None => allocation(before.heap_next, 512),
    };
    assert(together(buffer as int, bytes.len() as int));
    lemma_run(buffer, bytes.len() as int);
    assert(bytes.take(bytes.len() as int) =~= bytes);
    law_blocks_are_written(before.memory, buffer, bytes);
}

/// Leaving the application, aborting it and ending the playing of media each end it.
pub proof fn law_calls_that_end_the_application(before: CallState, cycle_count: u64)
    ensures
        ({
            let ended = CallOutcome {
                state: CallState { running: false, ..before },
                result: Ok(HandlerResult::Complete),
            };
            &&& system_call("vxGoHome"@, before, cycle_count) == ended
            &&& system_call("abort"@, before, cycle_count) == ended
            &&& system_call("TaskMediaFunStop"@, before, cycle_count) == ended
        }),
{
    lemma_names();
}

/// The functions of a semaphore act on the semaphore whose handle they are given. A
/// signal tells the guest whether there was one, and creation which one it is.
pub proof fn law_semaphore_calls(before: CallState)
    requires
        before.regs.len() == REGISTER_COUNT,
    ensures
        ({
            let outcome = task_call("OSSemCreate"@, before);
            &&& outcome.state.scheduler == semaphore_created(before.scheduler, before.regs[4])
            &&& put(before.regs, outcome.state.regs, 2, before.scheduler.next_semaphore_handle)
        }),
        task_call("OSSemPend"@, before).state.scheduler == semaphore_pended(
            before.scheduler,
            before.regs[4],
        ),
        ({
            let outcome = task_call("OSSemPost"@, before);
            &&& outcome.state.scheduler == semaphore_posted(before.scheduler, before.regs[4])
            &&& put(
                before.regs,
                outcome.state.regs,
                2,
                if before.scheduler.semaphores.contains_key(before.regs[4]) {
                    0
                } else {
                    1
                },
            )
        }),
        ({
            let after = task_call("OSSemDel"@, before).state.scheduler;
            &&& !after.semaphores.contains_key(before.regs[4])
            &&& forall|other: u32|
                other != before.regs[4] ==> (#[trigger] after.semaphores.contains_key(other)
                    <==> before.scheduler.semaphores.contains_key(other))
                    && after.semaphores[other] == before.scheduler.semaphores[other]
            &&& after.tasks == before.scheduler.tasks
            &&& after.main_wait == before.scheduler.main_wait
        }),
{
    lemma_task_names();
}

/// Nothing is copied from a place of which some byte is not served: the first such address
/// is told. Where all of them are and the other place has a gap, that is told, and the
/// bytes before it are written.
pub proof fn law_copies_that_fail(before: CallState, cycle_count: u64)
    requires
        before.regs.len() == REGISTER_COUNT,
        before.memory.sized(),
    ensures
        ({
            let outcome = system_call("memcpy"@, before, cycle_count);
            let (to, from, size) = (before.regs[4], before.regs[5], before.regs[6] as int);
            &&& forall|gap: int|
                {
                    &&& 0 <= gap < size
                    &&& !#[trigger] served(behind(from, gap))
                    &&& forall|i: int| 0 <= i < gap ==> #[trigger] served(behind(from, i))
                } ==> outcome.result == Err::<HandlerResult, u32>(behind(from, gap) as u32)
                    && outcome.state == before
            &&& forall|gap: int|
                {
                    &&& forall|i: int| 0 <= i < size ==> #[trigger] served(behind(from, i))
                    &&& 0 <= gap < size
                    &&& !#[trigger] served(behind(to, gap))
                    &&& forall|i: int| 0 <= i < gap ==> #[trigger] served(behind(to, i))
                } ==> outcome.result == Err::<HandlerResult, u32>(behind(to, gap) as u32)
                    && outcome.state.memory == put_bytes(
                    before.memory,
                    to,
                    bytes_at(before.memory, from, size as nat).take(gap),
                ) && outcome.state.regs == before.regs
        }),
{
    lemma_names();
    let (to, from, size) = (before.regs[4], before.regs[5], before.regs[6] as int);
    law_runs_end_at_the_first_gap(from, size);
    law_runs_end_at_the_first_gap(to, size);
    let readable = accessible_prefix(from, size);
    let writable = accessible_prefix(to, size);
    assert(readable < size ==> !served(behind(from, readable)));
    assert(writable < size ==> !served(behind(to, writable)));
}

/// A semaphore function tells through its third argument, where that is not zero, whether
/// there was such a semaphore: it writes the byte zero there, or one.
pub proof fn law_semaphore_calls_tell(before: CallState)
    requires
        before.regs.len() == REGISTER_COUNT,
        before.memory.sized(),
        before.regs[6] == 0 || spot(before.regs[6] as int) is Some,
    ensures
        before.regs[6] != 0 ==> ({
            let after = task_call("OSSemPend"@, before).state.memory;
            let deleted = task_call("OSSemDel"@, before).state.memory;
            let place = spot(before.regs[6] as int)->0;
            let told = if before.scheduler.semaphores.contains_key(before.regs[4]) {
                0u8
            } else {
                1u8
            };
            &&& cell(after, place) == told && same_besides(before.memory, after, place, 1)
            &&& cell(deleted, place) == told && same_besides(before.memory, deleted, place, 1)
        }),
        before.regs[6] == 0 ==> task_call("OSSemPend"@, before).state.memory == before.memory,
{
    lemma_task_names();
    let told = if before.scheduler.semaphores.contains_key(before.regs[4]) {
        0u8
    } else {
        1u8
    };
    if before.regs[6] != 0 {
        let place = spot(before.regs[6] as int)->0;
        law_writes_are_little_endian(before.memory, before.regs[6], Width::Byte, told as u32);
        law_addresses_that_are_served(before.regs[6]);
        let after = put_byte(before.memory, before.regs[6], told);
        assert(cell(after, (place.0, place.1 + 0)) == told);
    }
}

/// The console calls itself `A320`, in wide characters with a zero behind them.
pub proof fn law_name_of_the_console(before: CallState, cycle_count: u64)
    requires
        before.regs.len() == REGISTER_COUNT,
        before.memory.sized(),
        together(before.regs[4] as int, 10),
    ensures
        ({
            let outcome = system_call("cmGetSysModel"@, before, cycle_count);
            let after = outcome.state.memory;
            let (area, first) = spot(before.regs[4] as int)->0;
            &&& gives(before, outcome, 0)
            &&& same_besides(before.memory, after, (area, first), 10)
            &&& cell(after, (area, first)) as char == 'A'
            &&& cell(after, (area, first + 2)) as char == '3'
            &&& cell(after, (area, first + 4)) as char == '2'
            &&& cell(after, (area, first + 6)) as char == '0'
            &&& cell(after, (area, first + 8)) == 0
            &&& cell(after, (area, first + 1)) == 0 && cell(after, (area, first + 3)) == 0
            &&& cell(after, (area, first + 5)) == 0 && cell(after, (area, first + 7)) == 0
            &&& cell(after, (area, first + 9)) == 0
        }),
{
    lemma_names();
    let name = model_name();
    law_words_are_written(before.memory, before.regs[4], name);
    assert(name.take(5) =~= name);
    assert(name[0] == 0x41 && name[1] == 0x33 && name[2] == 0x32 && name[3] == 0x30 && name[4] == 0);
}

/// Whether the first address of a run that is not served is this far behind its start.
pub open spec fn first_gap(address: u32, size: int, gap: int) -> bool {
    &&& 0 <= gap < size
    &&& !served(behind(address, gap))
    &&& forall|i: int| 0 <= i < gap ==> #[trigger] served(behind(address, i))
}

pub proof fn lemma_first_gap(address: u32, size: int, gap: int)
    requires
        first_gap(address, size, gap),
        size <= 0x1_0000_0000,
    ensures
        accessible_prefix(address, size) == gap,
{
    law_runs_end_at_the_first_gap(address, size);
    let reach = accessible_prefix(address, size);
    if reach > gap {
        assert(served(behind(address, gap)));
    } else if reach < gap {
        assert(served(behind(address, reach)));
    }
}

/// Where a block that is to be set has a gap, the bytes before it are set.
pub proof fn law_memory_is_set_up_to_a_gap(before: CallState, cycle_count: u64, gap: int)
    requires
        before.regs.len() == REGISTER_COUNT,
        first_gap(before.regs[4], before.regs[6] as int, gap),
    ensures
        ({
            let outcome = system_call("memset"@, before, cycle_count);
            let byte = (before.regs[5] % 256) as u8;
            &&& gives(before, outcome, before.regs[4])
            &&& outcome.state.memory == put_bytes(
                before.memory,
                before.regs[4],
                Seq::new(gap as nat, |i: int| byte),
            )
        }),
{
    lemma_names();
    lemma_first_gap(before.regs[4], before.regs[6] as int, gap);
    let byte = (before.regs[5] % 256) as u8;
    assert(system_call("memset"@, before, cycle_count) == memset_call(before));
    assert(Seq::new(gap as nat, |i: int| byte) =~= Seq::new(
        gap as nat,
        |i: int| (before.argument(5) % 0x100) as u8,
    ));
}

/// A value that cannot be read is told as the address of it, and nothing changes.
pub proof fn law_values_that_are_not_there(before: CallState, cycle_count: u64)
    requires
        before.regs.len() == REGISTER_COUNT,
    ensures
        guest_read(before.memory, before.regs[4], Width::Half) is None ==> system_call(
            "U8TOU16"@,
            before,
            cycle_count,
        ) == (CallOutcome { state: before, result: Err(before.regs[4]) }),
        guest_read(before.memory, before.regs[4], Width::Word) is None ==> system_call(
            "U8TOU32"@,
            before,
            cycle_count,
        ) == (CallOutcome { state: before, result: Err(before.regs[4]) }),
{
    lemma_names();
}

} // verus!
