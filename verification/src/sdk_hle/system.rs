//! Memory, text, time and cache functions.

use crate::emulator::{CPU_CLOCK_HZ, Emulator, OS_TICKS_PER_SECOND};
use crate::error::SimulatorError;
use crate::memory::{
    accessible_prefix, allocation, bytes_at, guest_read, half_prefix, heap_after, put_bytes,
    put_halves, string_len_from, Memory, MemoryView, Width,
};
use crate::printf::{format_guest_printf, formatted};
use crate::sdk_hle::call::{low_word, lower_half, result_is, CallOutcome, CallState, HandlerResult};
use crate::tasks::TaskWait;
use crate::text::{c_string, read_guest_c_string, text_equal};
use vstd::prelude::*;
use vstd::string::*;

verus! {

/// Longest text that is converted to bytes.
pub const MAX_ANSI_CHARACTERS: u32 = 511;

/// Size of the guest buffer for converted text.
pub const ANSI_BUFFER_SIZE: u32 = 512;

// Memory.

pub open spec fn malloc_call(before: CallState) -> CallOutcome {
    let size = before.argument(4);
    CallState {
        heap_next: heap_after(before.heap_next, size),
        ..before
    }.returning(allocation(before.heap_next, size))
}

/// A block that grows moves; what was there comes along.
pub open spec fn realloc_call(before: CallState) -> CallOutcome {
    let pointer = before.argument(4);
    let size = before.argument(5);
    let moved = allocation(before.heap_next, size);
    let kept = bytes_at(
        before.memory,
        pointer,
        accessible_prefix(pointer, size as int) as nat,
    );
    CallState {
        heap_next: heap_after(before.heap_next, size),
        memory: if moved == 0 || pointer == 0 {
            before.memory
        } else {
            put_bytes(
                before.memory,
                moved,
                kept.take(accessible_prefix(moved, kept.len() as int)),
            )
        },
        ..before
    }.returning(moved)
}

pub open spec fn memset_call(before: CallState) -> CallOutcome {
    let pointer = before.argument(4);
    let value = (before.argument(5) % 0x100) as u8;
    let size = before.argument(6);
    CallState {
        memory: put_bytes(
            before.memory,
            pointer,
            Seq::new(accessible_prefix(pointer, size as int) as nat, |i: int| value),
        ),
        ..before
    }.returning(pointer)
}

/// Nothing is copied from a source that is not wholly accessible.
pub open spec fn memcpy_call(before: CallState) -> CallOutcome {
    let destination = before.argument(4);
    let source = before.argument(5);
    let size = before.argument(6);
    let readable = accessible_prefix(source, size as int);
    let writable = accessible_prefix(destination, size as int);
    let after = CallState {
        memory: put_bytes(
            before.memory,
            destination,
            bytes_at(before.memory, source, size as nat).take(writable),
        ),
        ..before
    };
    if readable < size {
        before.unmapped(source.wrapping_add(readable as u32))
    } else if writable < size {
        after.unmapped(destination.wrapping_add(writable as u32))
    } else {
        after.returning(destination)
    }
}

/// Reads a value through a pointer.
pub open spec fn fetch_call(before: CallState, width: Width) -> CallOutcome {
    let pointer = before.argument(4);
    match guest_read(before.memory, pointer, width) {
        Some(value) => before.returning(value),
        None => before.unmapped(pointer),
    }
}

// Text.

/// A wide character as a byte.
pub open spec fn ansi_byte(word: u16) -> u8 {
    if 0x20 <= word <= 0x7e {
        word as u8
    } else {
        0x3f
    }
}

/// A wide string as bytes, from one of its characters on; none where it cannot be
/// read.
pub open spec fn ansi_bytes_from(memory: MemoryView, pointer: u32, index: int) -> Option<Seq<u8>>
    decreases MAX_ANSI_CHARACTERS - index,
{
    if index >= MAX_ANSI_CHARACTERS {
        Some(seq![0u8])
    } else {
        match guest_read(memory, pointer.wrapping_add((2 * index) as u32), Width::Half) {
            None => None,
            Some(word) => if word == 0 {
                Some(seq![0u8])
            } else {
                match ansi_bytes_from(memory, pointer, index + 1) {
                    Some(rest) => Some(seq![ansi_byte(word as u16)] + rest),
                    None => None,
                }
            },
        }
    }
}

/// Converts a wide string into the buffer that all such calls share. The buffer
/// itself is taken for converted.
pub open spec fn to_ansi_call(before: CallState, pointer: u32) -> (CallState, u32) {
    let fresh = allocation(before.heap_next, ANSI_BUFFER_SIZE);
    let after = match before.locale_ansi_buffer {
        Some(_) => before,
        None => CallState {
            heap_next: heap_after(before.heap_next, ANSI_BUFFER_SIZE),
            locale_ansi_buffer: if fresh == 0 {
                None
            } else {
                Some(fresh)
            },
            ..before
        },
    };
    if before.locale_ansi_buffer == Some(pointer) {
        (before, pointer)
    } else {
        match ansi_bytes_from(before.memory, pointer, 0) {
            None => (before, 0),
            Some(bytes) => match after.locale_ansi_buffer {
                None => (after, 0),
                Some(output) => {
                    let written = accessible_prefix(output, bytes.len() as int);
                    (
                        CallState {
                            memory: put_bytes(before.memory, output, bytes.take(written)),
                            ..after
                        },
                        if written == bytes.len() {
                            output
                        } else {
                            0
                        },
                    )
                },
            },
        }
    }
}

/// The name of the console, as wide characters.
pub open spec fn model_name() -> Seq<u16> {
    seq![0x41u16, 0x33u16, 0x32u16, 0x30u16, 0u16]
}

pub open spec fn model_call(before: CallState) -> CallOutcome {
    let pointer = before.argument(4);
    let written = half_prefix(pointer, 5);
    let after = CallState {
        memory: put_halves(before.memory, pointer, model_name().take(written)),
        ..before
    };
    if written < 5 {
        after.unmapped(pointer.wrapping_add((2 * written) as u32))
    } else {
        after.returning(0)
    }
}

/// Writes formatted text and a closing zero.
pub open spec fn sprintf_call(before: CallState) -> CallOutcome {
    let destination = before.argument(4);
    let format = c_string(before.memory, before.argument(5));
    match formatted(format, before.regs, before.memory) {
        Err(address) => before.unmapped(address),
        Ok(text) => {
            let bytes = vstd::utf8::encode_utf8(text).push(0);
            let written = accessible_prefix(destination, bytes.len() as int);
            let after = CallState {
                memory: put_bytes(before.memory, destination, bytes.take(written)),
                ..before
            };
            if written < bytes.len() {
                after.unmapped(destination.wrapping_add(written as u32))
            } else {
                after.returning(low_word(bytes.len() - 1))
            }
        },
    }
}

// Time.

/// A number, or the largest there is.
pub open spec fn saturated(value: int) -> u64 {
    if value > u64::MAX {
        u64::MAX
    } else {
        value as u64
    }
}

/// Multiplies, up to the largest number.
fn saturating_product(left: u64, right: u64) -> (product: u64)
    ensures
        product == saturated(left * right),
{
    assert(0 <= left * right <= u64::MAX * u64::MAX) by (nonlinear_arith)
        requires
            left <= u64::MAX,
            right <= u64::MAX,
    ;
    let product: u128 = left as u128 * right as u128;
    if product > u64::MAX as u128 {
        u64::MAX
    } else {
        product as u64
    }
}

/// Emulated time in units of which there are so many in a second.
pub open spec fn elapsed(cycle_count: u64, per_second: int) -> u32 {
    low_word(saturated(cycle_count * per_second) as int / CPU_CLOCK_HZ as int)
}

/// Makes the running context wait for so many units of time.
pub open spec fn delay_call(before: CallState, cycle_count: u64, per_second: int) -> CallOutcome {
    let cycles = before.argument(4) * CPU_CLOCK_HZ / per_second;
    let deadline = saturated(cycle_count + cycles);
    CallState {
        scheduler: if deadline > cycle_count {
            before.scheduler.with_active_wait(Some(TaskWait::UntilCycle(deadline)))
        } else {
            before.scheduler
        },
        ..before
    }.complete()
}

/// What each function does. Clearing the cache of instructions also changes what
/// is not in this state.
pub open spec fn system_call(name: Seq<char>, before: CallState, cycle_count: u64) -> CallOutcome {
    if name == "__icache_invalidate_all"@ {
        before.complete()
    } else if name == "malloc"@ {
        malloc_call(before)
    } else if name == "free"@ {
        before.complete()
    } else if name == "realloc"@ {
        realloc_call(before)
    } else if name == "memset"@ {
        memset_call(before)
    } else if name == "memcpy"@ {
        memcpy_call(before)
    } else if name == "strlen"@ {
        before.returning(string_len_from(before.memory, before.argument(4), 0) as u32)
    } else if name == "__to_locale_ansi"@ {
        let (after, pointer) = to_ansi_call(before, before.argument(4));
        after.returning(pointer)
    } else if name == "cmGetSysModel"@ {
        model_call(before)
    } else if name == "get_current_language"@ {
        before.returning(0)
    } else if name == "U8TOU16"@ || name == "U8TOX16"@ {
        fetch_call(before, Width::Half)
    } else if name == "U8TOU32"@ || name == "U8TOX32"@ {
        fetch_call(before, Width::Word)
    } else if name == "OSTimeGet"@ {
        before.returning(elapsed(cycle_count, OS_TICKS_PER_SECOND as int))
    } else if name == "GetTickCount"@ {
        before.returning(elapsed(cycle_count, 1_000_000))
    } else if name == "delay_ms"@ || name == "mdelay"@ {
        delay_call(before, cycle_count, 1_000)
    } else if name == "StartSwTimer"@ {
        before.returning(0)
    } else if name == "OSTimeDly"@ {
        delay_call(before, cycle_count, OS_TICKS_PER_SECOND as int)
    } else if name == "udelay"@ {
        delay_call(before, cycle_count, 1_000_000)
    } else if name == "vxGoHome"@ || name == "abort"@ || name == "TaskMediaFunStop"@ {
        CallState { running: false, ..before }.complete()
    } else if name == "sprintf"@ {
        sprintf_call(before)
    } else if name == "printf"@ || name == "fprintf"@ {
        before.returning(0)
    } else if name == "__dcache_writeback_all"@ {
        before.complete()
    } else {
        CallOutcome { state: before, result: Ok(HandlerResult::NotHandled) }
    }
}

/// Reads a wide string as bytes.
fn read_ansi_bytes(memory: &Memory, pointer: u32) -> (bytes: Option<Vec<u8>>)
    ensures
        match ansi_bytes_from(memory@, pointer, 0) {
            Some(expected) => bytes matches Some(bytes) && bytes@ == expected,
            None => bytes is None,
        },
{
    let mut bytes: Vec<u8> = Vec::new();
    let mut index: u32 = 0;
    assert(forall|rest: Seq<u8>| #[trigger] (bytes@ + rest) =~= rest);
    while index < MAX_ANSI_CHARACTERS
        invariant
            index <= MAX_ANSI_CHARACTERS,
            match ansi_bytes_from(memory@, pointer, 0) {
                Some(expected) => match ansi_bytes_from(memory@, pointer, index as int) {
                    Some(rest) => expected == bytes@ + rest,
                    None => false,
                },
                None => ansi_bytes_from(memory@, pointer, index as int) is None,
            },
        decreases MAX_ANSI_CHARACTERS - index,
    {
        let ghost before = bytes@;
        match memory.read_u16(pointer.wrapping_add(2 * index)) {
            Ok(word) => {
                if word == 0 {
                    bytes.push(0);
                    assert(bytes@ =~= before + seq![0u8]);
                    return Some(bytes);
                }
                let byte: u8 = if 0x20 <= word && word <= 0x7e {
                    word as u8
                } else {
                    0x3f
                };
                bytes.push(byte);
                proof {
                    assert forall|rest: Seq<u8>|
                        #[trigger] (bytes@ + rest) =~= before + (seq![byte] + rest) by {}
                }
            },
            Err(_) => {
                return None;
            },
        }
        index = index + 1;
    }
    let ghost before = bytes@;
    bytes.push(0);
    assert(bytes@ =~= before + seq![0u8]);
    Some(bytes)
}

impl Emulator {
    /// Converts a wide guest string to bytes. Returns where they are, or zero.
    pub fn convert_guest_w_string_to_ansi(&mut self, pointer: u32) -> (output: u32)
        requires
            old(self).wf(),
        ensures
            final(self).wf(),
            final(self).same_besides_call(old(self)),
            (final(self).call_state(), output) == to_ansi_call(old(self).call_state(), pointer),
    {
        if let Some(buffer) = self.locale_ansi_buffer {
            if buffer == pointer {
                return pointer;
            }
        }
        let bytes = match read_ansi_bytes(&self.memory, pointer) {
            Some(bytes) => bytes,
            None => {
                return 0;
            },
        };
        let output: u32 = match self.locale_ansi_buffer {
            Some(output) => output,
            None => {
                let output: u32 = self.memory.malloc(ANSI_BUFFER_SIZE);
                if output == 0 {
                    return 0;
                }
                self.locale_ansi_buffer = Some(output);
                output
            },
        };
        match self.memory.load_data(output, bytes.as_slice()) {
            Ok(_) => output,
            Err(_) => 0,
        }
    }

    fn call_sprintf(&mut self) -> (result: Result<HandlerResult, SimulatorError>)
        requires
            old(self).wf(),
        ensures
            final(self).wf(),
            final(self).same_besides_call(old(self)),
            final(self).call_state() == sprintf_call(old(self).call_state()).state,
            result_is(result, sprintf_call(old(self).call_state()).result),
    {
        let destination: u32 = self.argument(4);
        let format = read_guest_c_string(&self.memory, self.argument(5));
        let rendered = match format_guest_printf(&self.cpu.regs, &self.memory, format.as_str()) {
            Ok(rendered) => rendered,
            Err(error) => {
                return Err(error);
            },
        };
        let text = rendered.as_str().as_bytes();
        let mut bytes: Vec<u8> = Vec::new();
        bytes.extend_from_slice(text);
        let length: usize = bytes.len();
        bytes.push(0);
        assert(bytes@ =~= vstd::utf8::encode_utf8(rendered@).push(0));
        match self.memory.load_data(destination, bytes.as_slice()) {
            Ok(_) => {},
            Err(error) => {
                return Err(error);
            },
        }
        assert(bytes@.take(bytes@.len() as int) =~= bytes@);
        let count: u32 = lower_half(length as u64);
        self.give(count);
        Ok(HandlerResult::Complete)
    }

    fn call_memcpy(&mut self) -> (result: Result<HandlerResult, SimulatorError>)
        requires
            old(self).wf(),
        ensures
            final(self).wf(),
            final(self).same_besides_call(old(self)),
            final(self).call_state() == memcpy_call(old(self).call_state()).state,
            result_is(result, memcpy_call(old(self).call_state()).result),
    {
        let destination: u32 = self.argument(4);
        match self.memory.memcpy(destination, self.cpu.regs.read(5), self.cpu.regs.read(6)) {
            Ok(_) => {},
            Err(error) => {
                return Err(error);
            },
        }
        self.give(destination);
        Ok(HandlerResult::Complete)
    }

    fn call_model(&mut self) -> (result: Result<HandlerResult, SimulatorError>)
        requires
            old(self).wf(),
        ensures
            final(self).wf(),
            final(self).same_besides_call(old(self)),
            final(self).call_state() == model_call(old(self).call_state()).state,
            result_is(result, model_call(old(self).call_state()).result),
    {
        let pointer: u32 = self.argument(4);
        let words: Vec<u16> = vec![0x41u16, 0x33u16, 0x32u16, 0x30u16, 0u16];
        assert(words@ =~= model_name());
        match self.memory.load_halves(pointer, words.as_slice()) {
            Ok(_) => {},
            Err(error) => {
                return Err(error);
            },
        }
        self.give(0);
        Ok(HandlerResult::Complete)
    }

    fn call_fetch(&mut self, width: Width) -> (result: Result<HandlerResult, SimulatorError>)
        requires
            old(self).wf(),
        ensures
            final(self).wf(),
            final(self).same_besides_call(old(self)),
            final(self).call_state() == fetch_call(old(self).call_state(), width).state,
            result_is(result, fetch_call(old(self).call_state(), width).result),
    {
        match self.memory.read(self.argument(4), width) {
            Ok(value) => {
                self.give(value);
                Ok(HandlerResult::Complete)
            },
            Err(error) => Err(error),
        }
    }

    fn call_delay(&mut self, per_second: u64)
        requires
            old(self).wf(),
            per_second > 0,
        ensures
            final(self).wf(),
            final(self).same_besides_call(old(self)),
            final(self).call_state() == delay_call(
                old(self).call_state(),
                old(self).cycle_count,
                per_second as int,
            ).state,
    {
        let units: u64 = self.argument(4) as u64;
        assert(units * CPU_CLOCK_HZ <= u32::MAX * CPU_CLOCK_HZ) by (nonlinear_arith)
            requires
                units <= u32::MAX,
        ;
        let cycles: u64 = units * CPU_CLOCK_HZ / per_second;
        let deadline: u64 = self.cycle_count.saturating_add(cycles);
        self.scheduler.delay_active_until(deadline, self.cycle_count);
    }
}

/// Whether a function of this name is handled here.
pub open spec fn is_system_function(name: Seq<char>) -> bool {
    ||| name == "__icache_invalidate_all"@
    ||| name == "malloc"@
    ||| name == "free"@
    ||| name == "realloc"@
    ||| name == "memset"@
    ||| name == "memcpy"@
    ||| name == "strlen"@
    ||| name == "__to_locale_ansi"@
    ||| name == "cmGetSysModel"@
    ||| name == "get_current_language"@
    ||| name == "U8TOU16"@
    ||| name == "U8TOX16"@
    ||| name == "U8TOU32"@
    ||| name == "U8TOX32"@
    ||| name == "OSTimeGet"@
    ||| name == "GetTickCount"@
    ||| name == "delay_ms"@
    ||| name == "mdelay"@
    ||| name == "StartSwTimer"@
    ||| name == "OSTimeDly"@
    ||| name == "udelay"@
    ||| name == "vxGoHome"@
    ||| name == "abort"@
    ||| name == "TaskMediaFunStop"@
    ||| name == "sprintf"@
    ||| name == "printf"@
    ||| name == "fprintf"@
    ||| name == "__dcache_writeback_all"@
}

/// What a call does to the machine.
pub open spec fn system_effect(
    name: Seq<char>,
    before: Emulator,
    after: Emulator,
    result: Result<HandlerResult, SimulatorError>,
) -> bool {
    let expected = system_call(name, before.call_state(), before.cycle_count);
    &&& after.call_state() == expected.state
    &&& if name == "__icache_invalidate_all"@ {
        &&& after.same_flow(&before)
        &&& after.instructions_forgotten(&before)
        &&& result == Ok::<HandlerResult, SimulatorError>(
            if before.jit.compiled_block_count != 0 && before.jit.backend_available {
                HandlerResult::CodeDropped
            } else {
                HandlerResult::Complete
            },
        )
    } else {
        &&& after.same_besides_call(&before)
        &&& result_is(result, expected.result)
    }
}

/// Carries out one of these functions.
pub fn handle(emu: &mut Emulator, func_name: &str) -> (result: Result<
    HandlerResult,
    SimulatorError,
>)
    requires
        old(emu).wf(),
    ensures
        final(emu).wf(),
        system_effect(func_name@, *old(emu), *final(emu), result),
        result matches Ok(HandlerResult::NotHandled) ==> *final(emu) == *old(emu),
        result matches Ok(HandlerResult::NotHandled) <==> !is_system_function(func_name@),
{
    if text_equal(func_name, "__icache_invalidate_all") {
        if emu.clear_instruction_cache() {
            return Ok(HandlerResult::CodeDropped);
        }
    } else if text_equal(func_name, "malloc") {
        let size: u32 = emu.argument(4);
        let pointer: u32 = emu.memory.malloc(size);
        emu.give(pointer);
    } else if text_equal(func_name, "free") {
        let pointer: u32 = emu.argument(4);
        emu.memory.free(pointer);
    } else if text_equal(func_name, "realloc") {
        let pointer: u32 = emu.argument(4);
        let size: u32 = emu.argument(5);
        let moved: u32 = emu.memory.realloc(pointer, size);
        emu.give(moved);
    } else if text_equal(func_name, "memset") {
        let pointer: u32 = emu.argument(4);
        let value: u8 = (emu.argument(5) % 0x100) as u8;
        let size: u32 = emu.argument(6);
        emu.memory.memset(pointer, value, size);
        emu.give(pointer);
    } else if text_equal(func_name, "memcpy") {
        return emu.call_memcpy();
    } else if text_equal(func_name, "strlen") {
        let pointer: u32 = emu.argument(4);
        let length: u32 = emu.memory.read_string_len(pointer);
        emu.give(length);
    } else if text_equal(func_name, "__to_locale_ansi") {
        let pointer: u32 = emu.argument(4);
        let output: u32 = emu.convert_guest_w_string_to_ansi(pointer);
        emu.give(output);
    } else if text_equal(func_name, "cmGetSysModel") {
        return emu.call_model();
    } else if text_equal(func_name, "get_current_language") {
        emu.give(0);
    } else if text_equal(func_name, "U8TOU16") || text_equal(func_name, "U8TOX16") {
        return emu.call_fetch(Width::Half);
    } else if text_equal(func_name, "U8TOU32") || text_equal(func_name, "U8TOX32") {
        return emu.call_fetch(Width::Word);
    } else if text_equal(func_name, "OSTimeGet") {
        let ticks: u32 = lower_half(
            saturating_product(emu.cycle_count, OS_TICKS_PER_SECOND) / CPU_CLOCK_HZ,
        );
        emu.give(ticks);
    } else if text_equal(func_name, "GetTickCount") {
        let micros: u32 = lower_half(saturating_product(emu.cycle_count, 1_000_000) / CPU_CLOCK_HZ);
        emu.give(micros);
    } else if text_equal(func_name, "delay_ms") || text_equal(func_name, "mdelay") {
        emu.call_delay(1_000);
    } else if text_equal(func_name, "StartSwTimer") {
        emu.give(0);
    } else if text_equal(func_name, "OSTimeDly") {
        emu.call_delay(OS_TICKS_PER_SECOND);
    } else if text_equal(func_name, "udelay") {
        emu.call_delay(1_000_000);
    } else if text_equal(func_name, "vxGoHome") || text_equal(func_name, "abort") || text_equal(
        func_name,
        "TaskMediaFunStop",
    ) {
        emu.cpu.stop();
    } else if text_equal(func_name, "sprintf") {
        return emu.call_sprintf();
    } else if text_equal(func_name, "printf") || text_equal(func_name, "fprintf") {
        emu.give(0);
    } else if text_equal(func_name, "__dcache_writeback_all") {
    } else {
        return Ok(HandlerResult::NotHandled);
    }
    Ok(HandlerResult::Complete)
}

/// Conversions share one buffer: once a text was converted, later conversions give
/// the same place, unless the text cannot be read or written.
pub proof fn law_conversions_share_a_buffer(
    before: CallState,
    pointer: u32,
    later: CallState,
    other: u32,
)
    requires
        later.locale_ansi_buffer == to_ansi_call(before, pointer).0.locale_ansi_buffer,
        to_ansi_call(before, pointer).1 != 0,
    ensures
        later.locale_ansi_buffer == Some(to_ansi_call(before, pointer).1),
        to_ansi_call(later, other).1 == to_ansi_call(before, pointer).1 || to_ansi_call(
            later,
            other,
        ).1 == 0,
        to_ansi_call(later, other).0.heap_next == later.heap_next,
{
}

} // verus!
