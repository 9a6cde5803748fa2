//! What compiled code is made of, and when code is compiled.

use crate::code_cache::{address_at, CodeCache};
use crate::isa::{control_flow, delay_instruction, supported_branch};
use crate::jit::block::{
    candidate_failure, candidate_len, ends_in_branch, lemma_straight_end, pc_at, straight,
    straight_end,
};
use crate::jit::engine::{
    action_for, action_for_compiled, compile_finished, compiled_count, cooldown_frames,
    counters_after, counters_after_compile, counters_after_run, diagnostics_switched, emptied,
    entry_after_run, failed_count, fast_slot, frame_begun, hotspot, interpreted, raised, requested,
    run_finished, CompiledBlock, JitAction, JitCacheEntry, JitCounters, JitDiagnostics, JitEngine,
    RunOrigin,
};
use crate::jit::ir::{
    binary_result, compares, unary_result, wide_result, BinaryOp, Condition, UnaryOp, WideOp,
};
use crate::laws::registers::{
    bit, lemma_bitwise, lemma_inverted, lemma_leading_zeros, lemma_shifted_bits,
    lemma_sign_extended, lemma_signed, lemma_signed_division, signed, size_of_number,
};
use crate::memory::{guest_read, MemoryView, Width};
use vstd::prelude::*;

verus! {

// Operations.

/// Sums, differences and products of words, modulo the size of a word.
pub proof fn law_sums_of_words(left: u32, right: u32)
    ensures
        (binary_result(BinaryOp::Add, left, right) - left - right) % 0x1_0000_0000 == 0,
        (binary_result(BinaryOp::Sub, left, right) + right - left) % 0x1_0000_0000 == 0,
        binary_result(BinaryOp::Mul, left, right) == (left * right) % 0x1_0000_0000,
{
}

/// Operations on words bit by bit, and shifts.
pub proof fn law_bits_of_words(left: u32, right: u32, b: u32)
    requires
        b < 32,
    ensures
        bit(binary_result(BinaryOp::And, left, right), b) == 1 <==> bit(left, b) == 1 && bit(
            right,
            b,
        ) == 1,
        bit(binary_result(BinaryOp::Or, left, right), b) == 1 <==> bit(left, b) == 1 || bit(
            right,
            b,
        ) == 1,
        bit(binary_result(BinaryOp::Xor, left, right), b) == 1 <==> (bit(left, b) == 1) != (bit(
            right,
            b,
        ) == 1),
        ({
            let places = right as int % 32;
            &&& bit(binary_result(BinaryOp::ShiftLeft, left, right), b) == if b >= places {
                bit(left, (b - places) as u32)
            } else {
                0
            }
            &&& bit(binary_result(BinaryOp::ShiftRight, left, right), b) == if b + places < 32 {
                bit(left, (b + places) as u32)
            } else {
                0
            }
            &&& bit(binary_result(BinaryOp::ShiftRightSigned, left, right), b) == if b + places
                < 32 {
                bit(left, (b + places) as u32)
            } else {
                bit(left, 31)
            }
        }),
{
    lemma_bitwise(left, right, b);
    assert(right & 0x1f == right % 32) by (bit_vector);
    lemma_shifted_bits(left, right & 0x1f, b);
}

/// Quotients and remainders of words: the quotient times the divisor plus the remainder is
/// the dividend, and the remainder is smaller than the divisor.
pub proof fn law_quotients_of_words(left: u32, right: u32)
    requires
        right != 0,
    ensures
        ({
            let quotient = binary_result(BinaryOp::Divide, left, right);
            let remainder = binary_result(BinaryOp::Remainder, left, right);
            quotient * right + remainder == left && remainder < right
        }),
        !(left == 0x8000_0000 && right == 0xffff_ffff) ==> {
            let quotient = signed(binary_result(BinaryOp::DivideSigned, left, right));
            let remainder = signed(binary_result(BinaryOp::RemainderSigned, left, right));
            &&& quotient * signed(right) + remainder == signed(left)
            &&& size_of_number(remainder) < size_of_number(signed(right))
            &&& remainder != 0 ==> (remainder < 0 <==> signed(left) < 0)
        },
{
    vstd::arithmetic::div_mod::lemma_fundamental_div_mod(left as int, right as int);
    assert(right * (left as int / right as int) == (left as int / right as int) * right)
        by (nonlinear_arith);
    vstd::arithmetic::div_mod::lemma_mod_bound(left as int, right as int);
    assert(0 <= left as int / right as int <= left) by (nonlinear_arith)
        requires
            right > 0,
            left >= 0,
    ;
    if !(left == 0x8000_0000 && right == 0xffff_ffff) {
        lemma_signed_division(left, right);
    }
}

/// Comparisons of words as they are and as numbers with a sign.
pub proof fn law_comparisons_of_words(left: u32, right: u32)
    ensures
        compares(Condition::Equal, left, right) <==> left == right,
        compares(Condition::NotEqual, left, right) <==> left != right,
        compares(Condition::Less, left, right) <==> left < right,
        compares(Condition::LessOrEqual, left, right) <==> left <= right,
        compares(Condition::SignedLess, left, right) <==> signed(left) < signed(right),
        compares(Condition::SignedLessOrEqual, left, right) <==> signed(left) <= signed(right),
        compares(Condition::SignedGreater, left, right) <==> signed(left) > signed(right),
        compares(Condition::SignedGreaterOrEqual, left, right) <==> signed(left) >= signed(right),
{
    lemma_signed(left);
    lemma_signed(right);
}

/// Sums, differences and products of double words, modulo their size.
pub proof fn law_sums_of_double_words(left: u64, right: u64)
    ensures
        (wide_result(WideOp::Add, left, right) - left - right) % 0x1_0000_0000_0000_0000 == 0,
        (wide_result(WideOp::Sub, left, right) + right - left) % 0x1_0000_0000_0000_0000 == 0,
        wide_result(WideOp::Mul, left, right) == (left * right) % 0x1_0000_0000_0000_0000,
{
}

proof fn lemma_narrow(operand: u64)
    by (bit_vector)
    ensures
        operand as u32 == operand % 0x1_0000_0000,
        operand << 32 == (operand % 0x1_0000_0000) * 0x1_0000_0000,
        operand >> 32 == operand / 0x1_0000_0000,
{
}

proof fn lemma_lowest_part(word: u32)
    by (bit_vector)
    ensures
        word as u8 as i8 as i32 as u32 == if word % 0x100 < 0x80 {
            (word % 0x100) as int
        } else {
            word % 0x100 + 0xffff_ff00
        },
        word as u16 as i16 as i32 as u32 == if word % 0x1_0000 < 0x8000 {
            (word % 0x1_0000) as int
        } else {
            word % 0x1_0000 + 0xffff_0000
        },
{
}

/// A double word is put together from its upper and its lower half.
pub proof fn law_double_words_from_halves(upper: u32, lower: u32)
    ensures
        wide_result(
            WideOp::Or,
            unary_result(UnaryOp::WideShiftLeft, upper as u64),
            lower as u64,
        ) == 0x1_0000_0000 * upper + lower,
{
    assert(((upper as u64) << 32) | (lower as u64) == 0x1_0000_0000 * upper + lower) by (bit_vector);
}

/// The lower and the upper half of a double word, and words as double words, without a
/// sign and with it.
pub proof fn law_halves_of_double_words(operand: u64)
    ensures
        ({
            let word = (operand % 0x1_0000_0000) as u32;
            &&& unary_result(UnaryOp::Narrow, operand) == word
            &&& unary_result(UnaryOp::Widen, operand) == word
            &&& unary_result(UnaryOp::ZeroExtend, operand) == word
            &&& unary_result(UnaryOp::WidenSigned, operand) == signed(word)
                % 0x1_0000_0000_0000_0000
            &&& unary_result(UnaryOp::WideShiftLeft, operand) == word * 0x1_0000_0000
            &&& unary_result(UnaryOp::WideShiftRight, operand) == operand / 0x1_0000_0000
        }),
{
    lemma_narrow(operand);
    lemma_sign_extended((operand % 0x1_0000_0000) as u32);
}

/// The complement of a word, the zero bits at its front, and its lowest byte and half as
/// numbers with a sign.
pub proof fn law_operations_on_one_word(word: u32, b: u32)
    requires
        b < 32,
    ensures
        bit(unary_result(UnaryOp::Not, word as u64) as u32, b) == 1 - bit(word, b),
        ({
            let count = unary_result(UnaryOp::CountLeadingZeros, word as u64);
            &&& count <= 32
            &&& b > 31 - count ==> bit(word, b) == 0
            &&& b == 31 - count ==> bit(word, b) == 1
        }),
        ({
            let byte = signed(unary_result(UnaryOp::SignExtendByte, word as u64) as u32);
            -0x80 <= byte < 0x80 && (byte - word) % 0x100 == 0
        }),
        ({
            let half = signed(unary_result(UnaryOp::SignExtendHalf, word as u64) as u32);
            -0x8000 <= half < 0x8000 && (half - word) % 0x1_0000 == 0
        }),
{
    lemma_lowest_part(word);
    lemma_narrow(word as u64);
    lemma_inverted(word, b);
    lemma_leading_zeros(word);
}

// Blocks.

/// The address of an instruction is four bytes behind that of the one before it.
pub proof fn law_addresses_of_instructions(start: u32, index: int)
    requires
        0 <= index <= 0x3fff_ffff,
    ensures
        pc_at(start, index) == (start + 4 * index) % 0x1_0000_0000,
        address_at(start, index) == (start + 4 * index) % 0x1_0000_0000,
{
}

proof fn lemma_all_straight(code: Seq<u32>, index: int)
    requires
        0 <= index <= code.len(),
    ensures
        forall|i: int| index <= i < straight_end(code, index) ==> straight(#[trigger] code[i]),
    decreases code.len() - index,
{
    if index < code.len() && straight(code[index]) {
        lemma_all_straight(code, index + 1);
    }
}

/// A compiled block covers the instructions up to the first one that does not fall
/// through, and that one with the instruction behind it where both can be compiled.
pub proof fn law_blocks_that_are_compiled(code: Seq<u32>)
    ensures
        ({
            let length = candidate_len(code);
            let branch = length - 2;
            &&& 0 <= length <= code.len()
            &&& (forall|i: int| 0 <= i < length ==> straight(#[trigger] code[i])) && (length
                < code.len() ==> !straight(code[length]) && !(length + 1 < code.len()
                && control_flow(code[length]) && supported_branch(code[length])
                && delay_instruction(code[length + 1]))) || {
                &&& branch >= 0
                &&& control_flow(code[branch]) && supported_branch(code[branch])
                &&& delay_instruction(code[branch + 1])
                &&& forall|i: int| 0 <= i < branch ==> straight(#[trigger] code[i])
            }
        }),
{
    lemma_straight_end(code, 0);
    lemma_all_straight(code, 0);
}

/// Why a block ends where it does: it is told of the instruction that stands in the way,
/// or that the block is shorter than four instructions.
pub proof fn law_blocks_that_are_not_compiled(code: Seq<u32>)
    ensures
        ({
            let (reason, blocking) = candidate_failure(code);
            let length = candidate_len(code);
            let branches = ends_in_branch(code);
            &&& reason is UnsupportedInstruction <==> !branches && length < code.len()
                && !control_flow(code[length])
            &&& reason is UnsupportedInstruction ==> blocking == code[length]
            &&& reason is UnsupportedBranch <==> !branches && length < code.len() && control_flow(
                code[length],
            ) && !supported_branch(code[length])
            &&& reason is UnsupportedBranch ==> blocking == code[length]
            &&& reason is UnsupportedDelaySlot <==> !branches && length < code.len()
                && control_flow(code[length]) && supported_branch(code[length])
            &&& reason is UnsupportedDelaySlot && length + 1 < code.len() ==> blocking
                == code[length + 1]
            &&& reason is BlockTooShort <==> length < 4 && (branches || length == code.len())
            &&& reason is Unknown <==> length >= 4 && (branches || length == code.len())
        }),
{
    lemma_straight_end(code, 0);
}

proof fn lemma_block_end(cache: CodeCache, start: u32, index: int)
    requires
        0 <= index <= 64,
    ensures
        ({
            let end = cache.block_end(start, index);
            &&& index <= end <= 64
            &&& forall|i: int|
                index <= i < end && i > 0 ==> !#[trigger] cache.boundary(address_at(start, i))
            &&& end < 64 ==> end > 0 && cache.boundary(address_at(start, end))
        }),
    decreases 64 - index,
{
    if !(index >= 64 || index > 0 && cache.boundary(address_at(start, index))) {
        lemma_block_end(cache, start, index + 1);
    }
}

/// A block ends before the first address behind its start at which the machine has to be
/// looked at, or after 64 instructions.
pub proof fn law_blocks_end(cache: CodeCache, start: u32)
    ensures
        ({
            let end = cache.block_end(start, 0);
            &&& 1 <= end <= 64
            &&& forall|i: int|
                0 < i < end ==> !#[trigger] cache.boundary(address_at(start, i))
            &&& end < 64 ==> cache.boundary(address_at(start, end))
        }),
{
    lemma_block_end(cache, start, 0);
}

/// The machine is looked at where a task ends, where a function is hooked, and at the
/// beginning and the startup check of the main function.
pub proof fn law_places_that_are_looked_at(cache: CodeCache, address: u32)
    ensures
        cache.boundary(address) <==> {
            ||| address == 0xffff_ffff
            ||| cache.hooks.names@.contains_key(address)
            ||| cache.app_main_entry == Some(address)
            ||| cache.app_main_init_check_address == Some(address)
        },
{
}

/// Instructions are fetched up to the first word that cannot be read.
pub proof fn law_instructions_are_fetched(memory: MemoryView, start: u32, count: int)
    requires
        0 <= count,
    ensures
        ({
            let fetched = CodeCache::fetchable(memory, start, count);
            &&& 0 <= fetched <= count
            &&& forall|i: int|
                0 <= i < fetched ==> #[trigger] guest_read(
                    memory,
                    address_at(start, i),
                    Width::Word,
                ) is Some
            &&& fetched < count ==> guest_read(
                memory,
                address_at(start, fetched),
                Width::Word,
            ) is None
        }),
    decreases count,
{
    if count > 0 {
        law_instructions_are_fetched(memory, start, count - 1);
    }
}

// Decisions.

/// Whether compiled code is known for a block and may be run: it is no longer than the
/// machine may run.
pub open spec fn runnable(
    engine: JitEngine,
    start: u32,
    block: CompiledBlock,
    limit: usize,
) -> bool {
    &&& engine.enabled && engine.backend_available && limit > 0
    &&& engine.entries@.contains_key(start)
    &&& engine.entries@[start].block == Some(block)
    &&& block.instruction_count <= limit
}

/// Compiled code is run exactly where it is known, allowed and short enough.
pub proof fn law_code_that_is_run(
    engine: JitEngine,
    start: u32,
    code: Seq<u32>,
    limit: usize,
    block: CompiledBlock,
)
    requires
        engine.wf(),
    ensures
        (action_for(engine.decision(start, code, limit)) matches JitAction::Run(chosen, origin)
            && chosen == block) <==> runnable(engine, start, block, limit),
{
    assert(0 <= fast_slot(start) < 16_384);
    let fast = engine.fast_entries@[fast_slot(start)];
    if fast.block is Some && fast.start == start {
        assert(engine.entries@.contains_key(start));
    }
}

/// A block is compiled with its request number 256, or 4096 where it has two or three
/// instructions: where that is allowed, it has not been compiled nor failed before, and
/// nothing else was compiled in this frame. At most 32768 blocks are known.
pub proof fn law_code_that_is_compiled(engine: JitEngine, start: u32, code: Seq<u32>, limit: usize)
    requires
        engine.wf(),
    ensures
        ({
            let known = engine.entries@.contains_key(start);
            let requests = 1 + if known {
                engine.entries@[start].hits as int
            } else {
                0
            };
            let length = candidate_len(code);
            action_for(engine.decision(start, code, limit)) is Compile <==> {
                &&& engine.enabled && engine.backend_available && limit > 0
                &&& known || engine.order@.len() < 32_768
                &&& known ==> engine.entries@[start].block is None && !engine.entries@[start].failed
                &&& engine.compile_budget > 0
                &&& length >= 4 && requests >= 256 || length >= 2 && requests >= 4096
            }
        }),
{
    assert(0 <= fast_slot(start) < 16_384);
    let fast = engine.fast_entries@[fast_slot(start)];
    if fast.block is Some && fast.start == start {
        assert(engine.entries@.contains_key(start));
    }
}

/// A request counts for its block and for no other, as long as that is not hot. It takes
/// the frame's compilation where the block is compiled, and only there.
pub proof fn law_requests_are_counted(
    before: JitEngine,
    after: JitEngine,
    start: u32,
    code: Seq<u32>,
    limit: usize,
)
    requires
        before.wf(),
        requested(before, after, start, code, limit),
    ensures
        ({
            let action = action_for(before.decision(start, code, limit));
            &&& action is Compile ==> after.compile_budget == 0
            &&& !(action is Compile) ==> after.compile_budget == before.compile_budget
            &&& before.enabled && before.backend_available && limit > 0
                && before.entries@.contains_key(start) && before.entries@[start].block is None
                && !before.entries@[start].failed && before.entries@[start].hits < 0xffff ==> {
                &&& after.entries@.contains_key(start)
                &&& after.entries@[start].hits == before.entries@[start].hits + 1
            }
            &&& before.enabled && before.backend_available && limit > 0
                && !before.entries@.contains_key(start) && before.order@.len() < 32_768 ==> {
                &&& after.entries@.contains_key(start)
                &&& after.entries@[start].hits == 1
            }
            &&& forall|other: u32|
                #![trigger after.entries@.contains_key(other)]
                other != start ==> (after.entries@.contains_key(other)
                    <==> before.entries@.contains_key(other)) && after.entries@[other]
                    == before.entries@[other]
        }),
{
    assert(0 <= fast_slot(start) < 16_384);
    let fast = before.fast_entries@[fast_slot(start)];
    if fast.block is Some && fast.start == start {
        assert(before.entries@.contains_key(start));
    }
}

/// Compiled code that is found again and does not get on is run four times; with the
/// fourth it is given up, and only then.
pub proof fn law_code_that_does_not_get_on_is_given_up(
    origin: RunOrigin,
    entry: JitCacheEntry,
    completed: u64,
)
    requires
        entry.block is Some,
        !entry.failed,
    ensures
        ({
            let after = entry_after_run(origin, entry, completed);
            let given_up = !(origin is Fresh) && completed == 0 && entry.zero_instruction_exits >= 3;
            &&& after.failed <==> given_up
            &&& after.block is None <==> given_up
            &&& !given_up ==> after.block == entry.block
            &&& origin is BlockMap && completed > 0 ==> after.zero_instruction_exits == 0
            &&& !(origin is Fresh) && completed == 0 && entry.zero_instruction_exits < 255
                ==> after.zero_instruction_exits == entry.zero_instruction_exits + 1
            &&& after.hits == entry.hits
        }),
{
}

/// After a compilation the code is known under its address, or the block is known not to
/// be compilable; the code is run where it is short enough.
pub proof fn law_compilations_are_kept(
    before: JitEngine,
    after: JitEngine,
    start: u32,
    result: Option<CompiledBlock>,
    elapsed_us: u128,
    limit: usize,
)
    requires
        before.wf(),
        compile_finished(before, after, start, result, elapsed_us, limit),
    ensures
        after.entries@.contains_key(start),
        match result {
            Some(block) => {
                &&& after.entries@[start].block == Some(block)
                &&& action_for_compiled(result, limit) is Run <==> block.instruction_count <= limit
                &&& after.compiled_block_count == before.compiled_block_count + 1
                    || before.compiled_block_count == u64::MAX
            },
            None => {
                &&& after.entries@[start].failed
                &&& after.entries@[start].block == before.entry(start).block
                &&& action_for_compiled(result, limit) is Interpret
                &&& after.compiled_block_count == before.compiled_block_count
            },
        },
        forall|other: u32|
            #![trigger after.entries@.contains_key(other)]
            other != start ==> (after.entries@.contains_key(other)
                <==> before.entries@.contains_key(other)) && after.entries@[other]
                == before.entries@[other],
{
}

/// A compilation of up to one and a half milliseconds is followed by a pause of one frame,
/// up to three by one of two, up to six by one of three, and a longer one by one of five.
pub proof fn law_pauses(elapsed_us: u128)
    ensures
        cooldown_frames(elapsed_us) == 1 <==> elapsed_us <= 1_500,
        cooldown_frames(elapsed_us) == 2 <==> 1_500 < elapsed_us <= 3_000,
        cooldown_frames(elapsed_us) == 3 <==> 3_000 < elapsed_us <= 6_000,
        cooldown_frames(elapsed_us) == 5 <==> 6_000 < elapsed_us,
{
}

/// A frame can compile one block where no pause is left, and none before that.
pub proof fn law_frames_compile_one_block(engine: JitEngine)
    ensures
        frame_begun(engine).compile_budget == 1 <==> engine.compile_cooldown == 0,
        frame_begun(engine).compile_budget <= 1,
        engine.compile_cooldown > 0 ==> frame_begun(engine).compile_cooldown + 1
            == engine.compile_cooldown,
        engine.compile_cooldown == 0 ==> frame_begun(engine).compile_cooldown == 0,
        frame_begun(engine).entries == engine.entries,
{
}

/// A counter grows by what is counted, and stays at the largest number.
pub proof fn law_counters_grow(counter: u64, amount: u64)
    ensures
        counter + amount <= u64::MAX ==> raised(counter, amount) == counter + amount,
        counter + amount > u64::MAX ==> raised(counter, amount) == u64::MAX,
{
}

/// A run counts once, with the instructions that it completed, and as one that was left
/// early where they are fewer than the block's; without any it counts as none.
pub proof fn law_runs_are_counted(counters: JitCounters, block: CompiledBlock, completed: u64)
    requires
        counters.native_executions < u64::MAX,
        counters.native_instructions + completed <= u64::MAX,
        counters.slow_memory_exits < u64::MAX,
        counters.zero_exit_fallbacks < u64::MAX,
    ensures
        ({
            let after = counters_after_run(counters, block, completed);
            &&& after.native_instructions == counters.native_instructions + completed
            &&& after.native_executions + after.zero_exit_fallbacks == counters.native_executions
                + counters.zero_exit_fallbacks + 1
            &&& after.zero_exit_fallbacks == counters.zero_exit_fallbacks + 1 <==> completed == 0
            &&& after.slow_memory_exits == counters.slow_memory_exits + 1 <==> 0 < completed
                < block.instruction_count
            &&& after.slow_memory_exits == counters.slow_memory_exits || 0 < completed
                < block.instruction_count
        }),
{
}

/// A compilation counts once, with its time; the longest one is kept.
pub proof fn law_compilations_are_counted(
    counters: JitCounters,
    result: Option<CompiledBlock>,
    elapsed_us: u128,
    limit: usize,
)
    requires
        counters.compilation_attempts < u64::MAX,
        counters.compilation_failures < u64::MAX,
        counters.compilation_total_us + elapsed_us <= u64::MAX,
    ensures
        ({
            let after = counters_after_compile(counters, result, elapsed_us, limit);
            &&& after.compilation_attempts == counters.compilation_attempts + 1
            &&& after.compilation_total_us == counters.compilation_total_us + elapsed_us
            &&& after.compilation_max_us >= elapsed_us
            &&& after.compilation_max_us >= counters.compilation_max_us
            &&& after.compilation_max_us == elapsed_us || after.compilation_max_us
                == counters.compilation_max_us
            &&& after.compilation_failures == counters.compilation_failures + if result is None {
                1int
            } else {
                0
            }
        }),
{
}

/// Whether a counter counts something: it grows by one where that holds, and stays else.
pub open spec fn counts_where(before: u64, after: u64, holds: bool) -> bool {
    after == before + if holds {
        1int
    } else {
        0
    }
}

/// Each request that leads to no compiled code is counted under its one reason, and one
/// that finds compiled code under where that was found.
pub proof fn law_requests_are_told_apart(
    engine: JitEngine,
    start: u32,
    code: Seq<u32>,
    limit: usize,
    after: JitCounters,
)
    requires
        engine.wf(),
        ({
            let slot = engine.fast_entries@[fast_slot(start)];
            after == counters_after(
                engine.decision(start, code, limit),
                engine.counters,
                slot.start != start && slot.block is Some,
                candidate_len(code),
            )
        }),
        ({
            let counters = engine.counters;
            let most = u64::MAX;
            &&& counters.execute_requests < most && counters.cold_fallbacks < most
            &&& counters.unavailable_fallbacks < most && counters.cache_capacity_fallbacks < most
            &&& counters.failed_block_fallbacks < most
            &&& counters.below_hot_threshold_fallbacks < most
            &&& counters.compile_budget_fallbacks < most
            &&& counters.block_too_short_fallbacks < most
            &&& counters.unsupported_instruction_fallbacks < most
            &&& counters.instruction_limit_fallbacks < most
            &&& counters.fast_cache_hits < most && counters.map_cache_hits < most
            &&& counters.fast_cache_collisions < most
        }),
    ensures
        ({
            let counters = engine.counters;
            let slot = engine.fast_entries@[fast_slot(start)];
            let available = engine.enabled && engine.backend_available && limit > 0;
            let known = engine.entries@.contains_key(start);
            let entry = engine.entries@[start];
            let compiled = known && entry.block is Some;
            let fast = slot.start == start && slot.block is Some;
            let full = !known && engine.order@.len() >= 32_768;
            let failed = known && !compiled && entry.failed;
            let requests = 1 + if known {
                entry.hits as int
            } else {
                0
            };
            let length = candidate_len(code);
            let waits = available && !compiled && !full && !failed;
            let hot = requests >= 256;
            let budget = engine.compile_budget > 0;
            let too_cold = waits && (!hot || budget && 2 <= length < 4 && requests < 4096);
            &&& counts_where(counters.execute_requests, after.execute_requests, true)
            &&& counts_where(
                counters.unavailable_fallbacks,
                after.unavailable_fallbacks,
                !available,
            )
            &&& counts_where(counters.fast_cache_hits, after.fast_cache_hits, available && fast)
            &&& counts_where(
                counters.map_cache_hits,
                after.map_cache_hits,
                available && !fast && compiled,
            )
            &&& counts_where(
                counters.instruction_limit_fallbacks,
                after.instruction_limit_fallbacks,
                available && compiled && entry.block->0.instruction_count > limit,
            )
            &&& counts_where(
                counters.cache_capacity_fallbacks,
                after.cache_capacity_fallbacks,
                available && full,
            )
            &&& counts_where(
                counters.failed_block_fallbacks,
                after.failed_block_fallbacks,
                available && failed,
            )
            &&& counts_where(
                counters.below_hot_threshold_fallbacks,
                after.below_hot_threshold_fallbacks,
                too_cold,
            )
            &&& counts_where(
                counters.compile_budget_fallbacks,
                after.compile_budget_fallbacks,
                waits && hot && !budget,
            )
            &&& counts_where(
                counters.unsupported_instruction_fallbacks,
                after.unsupported_instruction_fallbacks,
                waits && hot && budget && length == 0,
            )
            &&& counts_where(
                counters.block_too_short_fallbacks,
                after.block_too_short_fallbacks,
                waits && hot && budget && length == 1,
            )
            &&& counts_where(
                counters.cold_fallbacks,
                after.cold_fallbacks,
                !available || available && (full || failed) || too_cold || waits && hot && (!budget
                    || length < 2),
            )
            &&& counts_where(
                counters.fast_cache_collisions,
                after.fast_cache_collisions,
                available && slot.start != start && slot.block is Some,
            )
            &&& after.native_executions == counters.native_executions
            &&& after.interpreter_executions == counters.interpreter_executions
            &&& after.compilation_attempts == counters.compilation_attempts
        }),
{
    law_blocks_that_are_compiled(code);
    assert(0 <= fast_slot(start) < 16_384);
    let fast = engine.fast_entries@[fast_slot(start)];
    if fast.block is Some && fast.start == start {
        assert(engine.entries@.contains_key(start));
    }
}

/// A snapshot counts the blocks that are known, those with compiled code and those that
/// failed.
pub proof fn law_blocks_are_counted(order: Seq<u32>, entries: Map<u32, JitCacheEntry>)
    ensures
        compiled_count(order, entries) == order.filter(
            |start: u32| entries[start].block is Some,
        ).len(),
        failed_count(order, entries) == order.filter(|start: u32| entries[start].failed).len(),
    decreases order.len(),
{
    reveal(Seq::filter);
    if order.len() > 0 {
        law_blocks_are_counted(order.drop_last(), entries);
    }
}

/// A snapshot shows each counter under its name.
pub proof fn law_snapshots_show_the_counters(engine: JitEngine, snapshot: JitDiagnostics)
    requires
        engine.snapshot_is(snapshot),
    ensures
        snapshot.enabled == engine.enabled,
        snapshot.backend_available == engine.backend_available,
        snapshot.tracked_blocks == engine.order@.len(),
        snapshot.compiled_blocks == engine.order@.filter(
            |start: u32| engine.entries@[start].block is Some,
        ).len(),
        snapshot.failed_blocks == engine.order@.filter(
            |start: u32| engine.entries@[start].failed,
        ).len(),
        ({
            let counters = engine.counters;
            &&& snapshot.execute_requests == counters.execute_requests
            &&& snapshot.native_executions == counters.native_executions
            &&& snapshot.native_instructions == counters.native_instructions
            &&& snapshot.interpreter_executions == counters.interpreter_executions
            &&& snapshot.interpreter_instructions == counters.interpreter_instructions
            &&& snapshot.compilation_attempts == counters.compilation_attempts
            &&& snapshot.compilation_failures == counters.compilation_failures
            &&& snapshot.compilation_total_us == counters.compilation_total_us
            &&& snapshot.compilation_max_us == counters.compilation_max_us
            &&& snapshot.cold_fallbacks == counters.cold_fallbacks
            &&& snapshot.unavailable_fallbacks == counters.unavailable_fallbacks
            &&& snapshot.cache_capacity_fallbacks == counters.cache_capacity_fallbacks
            &&& snapshot.below_hot_threshold_fallbacks == counters.below_hot_threshold_fallbacks
            &&& snapshot.compile_budget_fallbacks == counters.compile_budget_fallbacks
            &&& snapshot.block_too_short_fallbacks == counters.block_too_short_fallbacks
            &&& snapshot.unsupported_instruction_fallbacks
                == counters.unsupported_instruction_fallbacks
            &&& snapshot.failed_block_fallbacks == counters.failed_block_fallbacks
            &&& snapshot.instruction_limit_fallbacks == counters.instruction_limit_fallbacks
            &&& snapshot.zero_exit_fallbacks == counters.zero_exit_fallbacks
            &&& snapshot.slow_memory_exits == counters.slow_memory_exits
            &&& snapshot.fast_cache_hits == counters.fast_cache_hits
            &&& snapshot.map_cache_hits == counters.map_cache_hits
            &&& snapshot.fast_cache_collisions == counters.fast_cache_collisions
        }),
{
    law_blocks_are_counted(engine.order@, engine.entries@);
}

/// A failed block is listed with why it failed, how far it could be compiled, what stood
/// in the way and how often it was asked for.
pub proof fn law_failed_blocks_are_described(start: u32, entry: JitCacheEntry)
    ensures
        ({
            let block = hotspot(start, entry);
            &&& block.start == start
            &&& block.reason == entry.failure_reason
            &&& block.candidate_len == entry.candidate_len
            &&& block.blocking_instruction == entry.blocking_instruction
            &&& block.fallbacks == entry.failed_fallbacks
        }),
{
}

/// Counting starts at zero where it is switched on, and what was counted stays where it is
/// switched off.
pub proof fn law_counting_is_switched(engine: JitEngine, enabled: bool)
    ensures
        ({
            let after = diagnostics_switched(engine, enabled);
            let counters = after.counters;
            &&& after.diagnostics_enabled == enabled
            &&& after.entries == engine.entries
            &&& !enabled || engine.diagnostics_enabled ==> counters == engine.counters
            &&& enabled && !engine.diagnostics_enabled ==> {
                &&& counters.execute_requests == 0 && counters.cold_fallbacks == 0
                &&& counters.native_executions == 0 && counters.native_instructions == 0
                &&& counters.interpreter_executions == 0 && counters.interpreter_instructions == 0
                &&& counters.compilation_attempts == 0 && counters.compilation_failures == 0
                &&& counters.compilation_total_us == 0 && counters.compilation_max_us == 0
                &&& counters.unavailable_fallbacks == 0 && counters.cache_capacity_fallbacks == 0
                &&& counters.below_hot_threshold_fallbacks == 0
                &&& counters.compile_budget_fallbacks == 0
                &&& counters.block_too_short_fallbacks == 0
                &&& counters.unsupported_instruction_fallbacks == 0
                &&& counters.failed_block_fallbacks == 0
                &&& counters.instruction_limit_fallbacks == 0
                &&& counters.zero_exit_fallbacks == 0 && counters.slow_memory_exits == 0
                &&& counters.fast_cache_hits == 0 && counters.map_cache_hits == 0
                &&& counters.fast_cache_collisions == 0
            }
        }),
{
}

/// Interpreted instructions count once for the run and each for itself, while counting is
/// on; a run of none counts for nothing.
pub proof fn law_interpreted_instructions_are_counted(engine: JitEngine, completed: u64)
    requires
        engine.counters.interpreter_executions < u64::MAX,
        engine.counters.interpreter_instructions + completed <= u64::MAX,
    ensures
        ({
            let before = engine.counters;
            let after = interpreted(engine, completed).counters;
            let counted = engine.diagnostics_enabled && completed > 0;
            &&& counts_where(before.interpreter_executions, after.interpreter_executions, counted)
            &&& after.interpreter_instructions == before.interpreter_instructions + if counted {
                completed as int
            } else {
                0
            }
            &&& after.native_executions == before.native_executions
            &&& after.execute_requests == before.execute_requests
        }),
{
}

/// After all code was forgotten no block is known, none is run, and a frame can compile
/// again.
pub proof fn law_code_that_is_forgotten(
    before: JitEngine,
    after: JitEngine,
    start: u32,
    block: CompiledBlock,
    limit: usize,
)
    requires
        emptied(before, after),
    ensures
        !after.entries@.contains_key(start),
        !runnable(after, start, block, limit),
        after.compile_budget == 1,
        after.compile_cooldown == 0,
        after.compiled_block_count == 0,
        after.counters == before.counters,
        after.enabled == before.enabled,
{
}

/// A run that is given up is forgotten in both places where it was kept, and no other
/// block is.
pub proof fn law_given_up_code_is_forgotten(
    before: JitEngine,
    after: JitEngine,
    start: u32,
    origin: RunOrigin,
    block: CompiledBlock,
    completed: u64,
    limit: usize,
)
    requires
        before.wf(),
        run_finished(before, after, start, origin, block, completed),
        before.entries@.contains_key(start),
        before.entries@[start].block == Some(block),
    ensures
        ({
            let given_up = !(origin is Fresh) && completed == 0
                && before.entries@[start].zero_instruction_exits >= 3;
            &&& given_up ==> after.entries@[start].failed && after.entries@[start].block is None
            &&& given_up ==> !(after.fast_entries@[fast_slot(start)].start == start
                && after.fast_entries@[fast_slot(start)].block is Some)
            &&& !given_up ==> after.entries@[start].block == Some(block)
            &&& forall|other: u32|
                #![trigger after.entries@.contains_key(other)]
                other != start ==> (after.entries@.contains_key(other)
                    <==> before.entries@.contains_key(other)) && after.entries@[other]
                    == before.entries@[other]
        }),
{
    assert(0 <= fast_slot(start) < 16_384);
    assert(!before.entries@[start].failed);
}

} // verus!
