//! Which guest blocks are compiled and run natively.
//!
//! The engine decides; the host performs. [`JitEngine::request`] says what to
//! do with a block, and [`JitEngine::finish_run`] and
//! [`JitEngine::finish_compile`] take what came of it.

use crate::jit::block::{
    analyze_candidate, candidate_failure, candidate_len, JitFailureReason,
    MIN_COMPILED_BLOCK_LEN,
};
use std::collections::HashMap;
use vstd::prelude::*;

verus! {

broadcast use vstd::std_specs::hash::group_hash_axioms;

/// Requests after which a block counts as hot.
pub const HOT_BLOCK_THRESHOLD: u16 = 256;

/// Shortest block that is compiled at all.
pub const MIN_HOT_SHORT_BLOCK_LEN: usize = 2;

/// Requests after which a short block counts as hot.
pub const SHORT_BLOCK_HOT_THRESHOLD: u16 = 4_096;

/// Blocks that are tracked at most.
pub const MAX_JIT_CACHE_ENTRIES: usize = 32_768;

/// Slots of the direct-mapped cache in front of the tracked blocks.
pub const FAST_JIT_CACHE_SLOTS: usize = 16_384;

/// Runs without progress after which a compiled block is retired.
pub const MAX_ZERO_INSTRUCTION_EXITS: u8 = 4;

/// Frames without compilation after a slow one.
pub const COMPILE_COOLDOWN_FRAMES: u8 = 3;

/// Longest fast compilation in microseconds.
pub const COMPILE_FAST_MAX_US: u128 = 1_500;

/// Longest moderate compilation in microseconds.
pub const COMPILE_MODERATE_MAX_US: u128 = 3_000;

/// Longest slow compilation in microseconds.
pub const COMPILE_SLOW_MAX_US: u128 = 6_000;

/// Frames without compilation after one that took even longer.
pub const COMPILE_EXPENSIVE_COOLDOWN_FRAMES: u8 = 5;

/// Native code for a block, as the host knows it.
#[derive(Clone, Copy, Debug, PartialEq, Eq, Structural)]
pub struct CompiledBlock {
    pub function: usize,
    pub instruction_count: usize,
}

/// Slot of the direct-mapped cache.
#[derive(Clone, Copy, Debug, PartialEq, Eq, Structural)]
pub struct FastJitCacheEntry {
    pub start: u32,
    pub block: Option<CompiledBlock>,
}

/// What is known of a tracked block.
#[derive(Clone, Copy, Debug, PartialEq, Eq, Structural)]
pub struct JitCacheEntry {
    pub hits: u16,
    pub failed: bool,
    pub failure_reason: JitFailureReason,
    pub candidate_len: u8,
    pub blocking_instruction: u32,
    pub failed_fallbacks: u64,
    pub zero_instruction_exits: u8,
    pub block: Option<CompiledBlock>,
}

/// Performance counters.
#[derive(Clone, Copy, Debug, PartialEq, Eq, Structural)]
pub struct JitCounters {
    pub execute_requests: u64,
    pub native_executions: u64,
    pub native_instructions: u64,
    pub interpreter_executions: u64,
    pub interpreter_instructions: u64,
    pub compilation_attempts: u64,
    pub compilation_failures: u64,
    pub compilation_total_us: u64,
    pub compilation_max_us: u64,
    pub cold_fallbacks: u64,
    pub unavailable_fallbacks: u64,
    pub cache_capacity_fallbacks: u64,
    pub below_hot_threshold_fallbacks: u64,
    pub compile_budget_fallbacks: u64,
    pub block_too_short_fallbacks: u64,
    pub unsupported_instruction_fallbacks: u64,
    pub failed_block_fallbacks: u64,
    pub instruction_limit_fallbacks: u64,
    pub zero_exit_fallbacks: u64,
    pub slow_memory_exits: u64,
    pub fast_cache_hits: u64,
    pub map_cache_hits: u64,
    pub fast_cache_collisions: u64,
}

/// Where a block to run was found.
#[derive(Clone, Copy, Debug, PartialEq, Eq, Structural)]
pub enum RunOrigin {
    /// In the direct-mapped cache.
    FastCache,
    /// Among the tracked blocks.
    BlockMap,
    /// It was just compiled.
    Fresh,
}

/// What the host is to do with a block.
#[derive(Clone, Copy, Debug, PartialEq, Eq, Structural)]
pub enum JitAction {
    /// Interpret it.
    Interpret,
    /// Run its native code, then report to [`JitEngine::finish_run`].
    Run(CompiledBlock, RunOrigin),
    /// Compile it, then report to [`JitEngine::finish_compile`].
    Compile,
}

/// How a request is answered, and why.
#[derive(Clone, Copy, Debug, PartialEq, Eq, Structural)]
pub enum Decision {
    /// Translation is off, has no backend, or may not run a single instruction.
    Unavailable,
    /// The direct-mapped cache has native code.
    FastRun(CompiledBlock),
    /// It has, but more than may run.
    FastLimit,
    /// The block is new and there is no room for it.
    Full,
    /// The block has native code.
    TrackedRun(CompiledBlock),
    /// It has, but more than may run.
    TrackedLimit(CompiledBlock),
    /// The block cannot be compiled or was retired.
    Failed,
    /// The block is not hot.
    Cold,
    /// The block is hot, but this frame has no compilation left.
    NoBudget,
    /// The block turns out not to be compilable.
    Unsuitable,
    /// The block is short and not hot enough for that.
    ShortCold,
    /// The block is to be compiled.
    Compile,
}

/// One more, up to the largest counter value.
pub open spec fn bumped(counter: u64) -> u64 {
    raised(counter, 1)
}

/// A counter raised by an amount, up to the largest counter value.
pub open spec fn raised(counter: u64, amount: u64) -> u64 {
    if counter + amount > u64::MAX {
        u64::MAX
    } else {
        (counter + amount) as u64
    }
}

/// One more request for a block.
pub open spec fn next_hits(hits: u16) -> u16 {
    if hits == u16::MAX {
        hits
    } else {
        (hits + 1) as u16
    }
}

/// Slot of the direct-mapped cache for a block.
pub open spec fn fast_slot(start: u32) -> int {
    (start / 4 % 16_384) as int
}

/// What is known of a block that was never requested.
pub open spec fn untracked() -> JitCacheEntry {
    JitCacheEntry {
        hits: 0,
        failed: false,
        failure_reason: JitFailureReason::Unknown,
        candidate_len: 0,
        blocking_instruction: 0,
        failed_fallbacks: 0,
        zero_instruction_exits: 0,
        block: None,
    }
}

/// All counters at zero.
pub open spec fn zero_counters() -> JitCounters {
    JitCounters {
        execute_requests: 0,
        native_executions: 0,
        native_instructions: 0,
        interpreter_executions: 0,
        interpreter_instructions: 0,
        compilation_attempts: 0,
        compilation_failures: 0,
        compilation_total_us: 0,
        compilation_max_us: 0,
        cold_fallbacks: 0,
        unavailable_fallbacks: 0,
        cache_capacity_fallbacks: 0,
        below_hot_threshold_fallbacks: 0,
        compile_budget_fallbacks: 0,
        block_too_short_fallbacks: 0,
        unsupported_instruction_fallbacks: 0,
        failed_block_fallbacks: 0,
        instruction_limit_fallbacks: 0,
        zero_exit_fallbacks: 0,
        slow_memory_exits: 0,
        fast_cache_hits: 0,
        map_cache_hits: 0,
        fast_cache_collisions: 0,
    }
}

/// Frames without compilation after one that took this long.
pub open spec fn cooldown_frames(elapsed_us: u128) -> u8 {
    if elapsed_us <= COMPILE_FAST_MAX_US {
        1
    } else if elapsed_us <= COMPILE_MODERATE_MAX_US {
        2
    } else if elapsed_us <= COMPILE_SLOW_MAX_US {
        COMPILE_COOLDOWN_FRAMES
    } else {
        COMPILE_EXPENSIVE_COOLDOWN_FRAMES
    }
}

/// Frames without compilation after one that took this long.
pub fn compile_cooldown_frames(elapsed_us: u128) -> (frames: u8)
    ensures
        frames == cooldown_frames(elapsed_us),
{
    if elapsed_us <= COMPILE_FAST_MAX_US {
        1
    } else if elapsed_us <= COMPILE_MODERATE_MAX_US {
        2
    } else if elapsed_us <= COMPILE_SLOW_MAX_US {
        COMPILE_COOLDOWN_FRAMES
    } else {
        COMPILE_EXPENSIVE_COOLDOWN_FRAMES
    }
}

/// A longer compilation never shortens the pause that follows it, and there is always one.
pub proof fn law_cooldown_grows_with_compile_time(shorter: u128, longer: u128)
    requires
        shorter <= longer,
    ensures
        1 <= cooldown_frames(shorter) <= cooldown_frames(longer),
{
}

/// Tracked blocks, their native code, and the pace of compilation.
pub struct JitEngine {
    pub backend_available: bool,
    pub entries: HashMap<u32, JitCacheEntry>,
    pub order: Vec<u32>,
    pub fast_entries: Vec<FastJitCacheEntry>,
    pub enabled: bool,
    pub compile_budget: u8,
    pub compile_cooldown: u8,
    pub compiled_block_count: u64,
    pub diagnostics_enabled: bool,
    pub counters: JitCounters,
}

impl JitEngine {
    /// What is known of a block.
    pub open spec fn entry(&self, start: u32) -> JitCacheEntry {
        if self.entries@.contains_key(start) {
            self.entries@[start]
        } else {
            untracked()
        }
    }

    /// Every slot of the direct-mapped cache that holds native code holds that
    /// of a tracked block; the list of tracked blocks is complete and without
    /// repetition; no failed block has native code.
    pub open spec fn wf(&self) -> bool {
        &&& self.fast_entries@.len() == FAST_JIT_CACHE_SLOTS
        &&& forall|slot: int|
            0 <= slot < FAST_JIT_CACHE_SLOTS && (#[trigger] self.fast_entries@[slot]).block is Some
                ==> {
                &&& slot == fast_slot(self.fast_entries@[slot].start)
                &&& self.entries@.contains_key(self.fast_entries@[slot].start)
                &&& self.entries@[self.fast_entries@[slot].start].block
                    == self.fast_entries@[slot].block
            }
        &&& forall|start: u32| #[trigger]
            self.entries@.contains_key(start) && self.entries@[start].failed
                ==> self.entries@[start].block is None
        &&& self.order@.no_duplicates()
        &&& forall|start: u32| #[trigger]
            self.entries@.contains_key(start) <==> self.order@.contains(start)
        &&& self.order@.len() <= MAX_JIT_CACHE_ENTRIES
    }

    /// How a request is answered.
    pub open spec fn decision(&self, start: u32, code: Seq<u32>, limit: usize) -> Decision {
        let fast = self.fast_entries@[fast_slot(start)];
        let entry = self.entry(start);
        let hits = next_hits(entry.hits);
        let candidate = candidate_len(code);
        if !self.enabled || limit == 0 || !self.backend_available {
            Decision::Unavailable
        } else if fast.start == start && fast.block is Some {
            if fast.block->0.instruction_count <= limit {
                Decision::FastRun(fast.block->0)
            } else {
                Decision::FastLimit
            }
        } else if !self.entries@.contains_key(start) && self.order@.len()
            >= MAX_JIT_CACHE_ENTRIES {
            Decision::Full
        } else if entry.block is Some {
            if entry.block->0.instruction_count <= limit {
                Decision::TrackedRun(entry.block->0)
            } else {
                Decision::TrackedLimit(entry.block->0)
            }
        } else if entry.failed {
            Decision::Failed
        } else if hits < HOT_BLOCK_THRESHOLD {
            Decision::Cold
        } else if self.compile_budget == 0 {
            Decision::NoBudget
        } else if candidate < MIN_HOT_SHORT_BLOCK_LEN {
            Decision::Unsuitable
        } else if candidate < MIN_COMPILED_BLOCK_LEN && hits < SHORT_BLOCK_HOT_THRESHOLD {
            Decision::ShortCold
        } else {
            Decision::Compile
        }
    }
}

/// What the host is told for each decision.
pub open spec fn action_for(decision: Decision) -> JitAction {
    match decision {
        Decision::FastRun(block) => JitAction::Run(block, RunOrigin::FastCache),
        Decision::TrackedRun(block) => JitAction::Run(block, RunOrigin::BlockMap),
        Decision::Compile => JitAction::Compile,
        _ => JitAction::Interpret,
    }
}

/// What the host is told after a compilation.
pub open spec fn action_for_compiled(result: Option<CompiledBlock>, limit: usize) -> JitAction {
    match result {
        Some(block) => if block.instruction_count <= limit {
            JitAction::Run(block, RunOrigin::Fresh)
        } else {
            JitAction::Interpret
        },
        None => JitAction::Interpret,
    }
}

/// What is known of the requested block afterwards, where that changes.
pub open spec fn entry_after(
    decision: Decision,
    entry: JitCacheEntry,
    code: Seq<u32>,
    diagnostics: bool,
) -> Option<JitCacheEntry> {
    let counted = JitCacheEntry { hits: next_hits(entry.hits), ..entry };
    match decision {
        Decision::Cold | Decision::NoBudget | Decision::ShortCold | Decision::Compile => Some(
            counted,
        ),
        Decision::Unsuitable => Some(
            JitCacheEntry {
                failed: true,
                failure_reason: candidate_failure(code).0,
                candidate_len: candidate_len(code) as u8,
                blocking_instruction: candidate_failure(code).1,
                failed_fallbacks: 1,
                ..counted
            },
        ),
        Decision::Failed => Some(
            JitCacheEntry {
                failed_fallbacks: if diagnostics {
                    bumped(entry.failed_fallbacks)
                } else {
                    entry.failed_fallbacks
                },
                ..entry
            },
        ),
        _ => None,
    }
}

/// Slot of the direct-mapped cache afterwards.
pub open spec fn slot_after(
    decision: Decision,
    slot: FastJitCacheEntry,
    start: u32,
) -> FastJitCacheEntry {
    match decision {
        Decision::TrackedRun(block) | Decision::TrackedLimit(block) => FastJitCacheEntry {
            start,
            block: Some(block),
        },
        _ => slot,
    }
}

/// Counters after a request, while diagnostics are on.
pub open spec fn counters_after(
    decision: Decision,
    counters: JitCounters,
    collision: bool,
    candidate: int,
) -> JitCounters {
    let requested = JitCounters {
        execute_requests: bumped(counters.execute_requests),
        ..counters
    };
    let cold = bumped(counters.cold_fallbacks);
    let met = JitCounters {
        fast_cache_collisions: if collision {
            bumped(counters.fast_cache_collisions)
        } else {
            counters.fast_cache_collisions
        },
        ..requested
    };
    match decision {
        Decision::Unavailable => JitCounters {
            cold_fallbacks: cold,
            unavailable_fallbacks: bumped(counters.unavailable_fallbacks),
            ..requested
        },
        Decision::FastRun(_) => JitCounters {
            fast_cache_hits: bumped(counters.fast_cache_hits),
            ..requested
        },
        Decision::FastLimit => JitCounters {
            fast_cache_hits: bumped(counters.fast_cache_hits),
            instruction_limit_fallbacks: bumped(counters.instruction_limit_fallbacks),
            ..requested
        },
        Decision::Full => JitCounters {
            cold_fallbacks: cold,
            cache_capacity_fallbacks: bumped(counters.cache_capacity_fallbacks),
            ..met
        },
        Decision::TrackedRun(_) => JitCounters {
            map_cache_hits: bumped(counters.map_cache_hits),
            ..met
        },
        Decision::TrackedLimit(_) => JitCounters {
            map_cache_hits: bumped(counters.map_cache_hits),
            instruction_limit_fallbacks: bumped(counters.instruction_limit_fallbacks),
            ..met
        },
        Decision::Failed => JitCounters {
            cold_fallbacks: cold,
            failed_block_fallbacks: bumped(counters.failed_block_fallbacks),
            ..met
        },
        Decision::Cold | Decision::ShortCold => JitCounters {
            cold_fallbacks: cold,
            below_hot_threshold_fallbacks: bumped(counters.below_hot_threshold_fallbacks),
            ..met
        },
        Decision::NoBudget => JitCounters {
            cold_fallbacks: cold,
            compile_budget_fallbacks: bumped(counters.compile_budget_fallbacks),
            ..met
        },
        Decision::Unsuitable => if candidate == 0 {
            JitCounters {
                cold_fallbacks: cold,
                unsupported_instruction_fallbacks: bumped(
                    counters.unsupported_instruction_fallbacks,
                ),
                ..met
            }
        } else {
            JitCounters {
                cold_fallbacks: cold,
                block_too_short_fallbacks: bumped(counters.block_too_short_fallbacks),
                ..met
            }
        },
        Decision::Compile => met,
    }
}

/// What a run of native code means for what is known of its block.
pub open spec fn entry_after_run(
    origin: RunOrigin,
    entry: JitCacheEntry,
    completed: u64,
) -> JitCacheEntry {
    let exits = if entry.zero_instruction_exits == u8::MAX {
        u8::MAX
    } else {
        (entry.zero_instruction_exits + 1) as u8
    };
    if origin == RunOrigin::Fresh {
        entry
    } else if completed == 0 {
        if exits >= MAX_ZERO_INSTRUCTION_EXITS {
            JitCacheEntry { zero_instruction_exits: exits, block: None, failed: true, ..entry }
        } else {
            JitCacheEntry { zero_instruction_exits: exits, ..entry }
        }
    } else if origin == RunOrigin::BlockMap {
        JitCacheEntry { zero_instruction_exits: 0, ..entry }
    } else {
        entry
    }
}

/// Counters after a run of native code, while diagnostics are on.
pub open spec fn counters_after_run(
    counters: JitCounters,
    block: CompiledBlock,
    completed: u64,
) -> JitCounters {
    if completed == 0 {
        JitCounters { zero_exit_fallbacks: bumped(counters.zero_exit_fallbacks), ..counters }
    } else {
        JitCounters {
            native_executions: bumped(counters.native_executions),
            native_instructions: raised(counters.native_instructions, completed),
            slow_memory_exits: if completed < block.instruction_count {
                bumped(counters.slow_memory_exits)
            } else {
                counters.slow_memory_exits
            },
            ..counters
        }
    }
}

/// A duration in microseconds that fits a counter.
pub open spec fn clamped_us(elapsed_us: u128) -> u64 {
    if elapsed_us > u64::MAX {
        u64::MAX
    } else {
        elapsed_us as u64
    }
}

/// Counters after a compilation, while diagnostics are on.
pub open spec fn counters_after_compile(
    counters: JitCounters,
    result: Option<CompiledBlock>,
    elapsed_us: u128,
    limit: usize,
) -> JitCounters {
    let us = clamped_us(elapsed_us);
    let timed = JitCounters {
        compilation_attempts: bumped(counters.compilation_attempts),
        compilation_total_us: raised(counters.compilation_total_us, us),
        compilation_max_us: if us > counters.compilation_max_us {
            us
        } else {
            counters.compilation_max_us
        },
        ..counters
    };
    match result {
        None => JitCounters {
            compilation_failures: bumped(counters.compilation_failures),
            ..timed
        },
        Some(block) => if block.instruction_count > limit {
            JitCounters {
                instruction_limit_fallbacks: bumped(counters.instruction_limit_fallbacks),
                ..timed
            }
        } else {
            timed
        },
    }
}

fn raise(counter: u64, amount: u64) -> (result: u64)
    ensures
        result == raised(counter, amount),
{
    counter.saturating_add(amount)
}

fn bump(counter: u64) -> (result: u64)
    ensures
        result == bumped(counter),
{
    counter.saturating_add(1)
}

/// What a request for a block does to the engine.
pub open spec fn requested(
    before: JitEngine,
    after: JitEngine,
    start: u32,
    code: Seq<u32>,
    limit: usize,
) -> bool {
    let decision = before.decision(start, code, limit);
    let slot = before.fast_entries@[fast_slot(start)];
    &&& after.entries@ == match entry_after(
        decision,
        before.entry(start),
        code,
        before.diagnostics_enabled,
    ) {
        Some(entry) => before.entries@.insert(start, entry),
        None => before.entries@,
    }
    &&& after.fast_entries@ == before.fast_entries@.update(
        fast_slot(start),
        slot_after(decision, slot, start),
    )
    &&& after.counters == if before.diagnostics_enabled {
        counters_after(
            decision,
            before.counters,
            slot.start != start && slot.block is Some,
            candidate_len(code),
        )
    } else {
        before.counters
    }
    &&& after.compile_budget == if decision == Decision::Compile {
        0
    } else {
        before.compile_budget
    }
    &&& after.compile_cooldown == before.compile_cooldown
    &&& after.compiled_block_count == before.compiled_block_count
    &&& after.same_settings(&before)
    &&& forall|other: u32|
        other != start ==> #[trigger] after.entry(other) == before.entry(other)
}

/// What a run of native code does to the engine.
pub open spec fn run_finished(
    before: JitEngine,
    after: JitEngine,
    start: u32,
    origin: RunOrigin,
    block: CompiledBlock,
    completed: u64,
) -> bool {
    let entry = entry_after_run(origin, before.entry(start), completed);
    let slot = before.fast_entries@[fast_slot(start)];
    &&& after.entries@ == if before.entries@.contains_key(start) {
        before.entries@.insert(start, entry)
    } else {
        before.entries@
    }
    &&& after.fast_entries@ == if before.entries@.contains_key(start) && before.entry(
        start,
    ).block is Some && entry.block is None && slot.start == start {
        before.fast_entries@.update(
            fast_slot(start),
            FastJitCacheEntry { start, block: None },
        )
    } else {
        before.fast_entries@
    }
    &&& after.counters == if before.diagnostics_enabled {
        counters_after_run(before.counters, block, completed)
    } else {
        before.counters
    }
    &&& after.compile_budget == before.compile_budget
    &&& after.compile_cooldown == before.compile_cooldown
    &&& after.compiled_block_count == before.compiled_block_count
    &&& after.same_settings(&before)
    &&& forall|other: u32|
        other != start ==> #[trigger] after.entry(other) == before.entry(other)
}

/// What a compilation does to the engine.
pub open spec fn compile_finished(
    before: JitEngine,
    after: JitEngine,
    start: u32,
    result: Option<CompiledBlock>,
    elapsed_us: u128,
    limit: usize,
) -> bool {
    &&& after.entries@ == before.entries@.insert(
        start,
        match result {
            Some(block) => JitCacheEntry { block: Some(block), ..before.entry(start) },
            None => JitCacheEntry { failed: true, ..before.entry(start) },
        },
    )
    &&& after.fast_entries@ == match result {
        Some(block) => before.fast_entries@.update(
            fast_slot(start),
            FastJitCacheEntry { start, block: Some(block) },
        ),
        None => before.fast_entries@,
    }
    &&& after.compile_cooldown == cooldown_frames(elapsed_us)
    &&& after.compile_budget == before.compile_budget
    &&& after.compiled_block_count == match result {
        Some(_) => before.compiled_block_count.wrapping_add(1),
        None => before.compiled_block_count,
    }
    &&& after.counters == if before.diagnostics_enabled {
        counters_after_compile(before.counters, result, elapsed_us, limit)
    } else {
        before.counters
    }
    &&& after.same_settings(&before)
    &&& forall|other: u32|
        other != start ==> #[trigger] after.entry(other) == before.entry(other)
}

/// The engine after counting was switched on or off. Counts start at zero.
pub open spec fn diagnostics_switched(engine: JitEngine, enabled: bool) -> JitEngine {
    JitEngine {
        diagnostics_enabled: enabled,
        counters: if enabled && !engine.diagnostics_enabled {
            zero_counters()
        } else {
            engine.counters
        },
        ..engine
    }
}

/// The engine after instructions were interpreted.
pub open spec fn interpreted(engine: JitEngine, completed: u64) -> JitEngine {
    JitEngine {
        counters: if engine.diagnostics_enabled && completed != 0 {
            JitCounters {
                interpreter_executions: bumped(engine.counters.interpreter_executions),
                interpreter_instructions: raised(
                    engine.counters.interpreter_instructions,
                    completed,
                ),
                ..engine.counters
            }
        } else {
            engine.counters
        },
        ..engine
    }
}

/// Whether all blocks were forgotten.
pub open spec fn emptied(before: JitEngine, after: JitEngine) -> bool {
    &&& after.entries@ == Map::<u32, JitCacheEntry>::empty()
    &&& forall|slot: int|
        0 <= slot < FAST_JIT_CACHE_SLOTS ==> (#[trigger] after.fast_entries@[slot]).block is None
    &&& after.compiled_block_count == 0
    &&& after.compile_budget == 1
    &&& after.compile_cooldown == 0
    &&& after.counters == before.counters
    &&& after.same_settings(&before)
}

impl JitCounters {
    /// All counters at zero.
    pub fn new() -> (counters: JitCounters)
        ensures
            counters == zero_counters(),
    {
        JitCounters {
            execute_requests: 0,
            native_executions: 0,
            native_instructions: 0,
            interpreter_executions: 0,
            interpreter_instructions: 0,
            compilation_attempts: 0,
            compilation_failures: 0,
            compilation_total_us: 0,
            compilation_max_us: 0,
            cold_fallbacks: 0,
            unavailable_fallbacks: 0,
            cache_capacity_fallbacks: 0,
            below_hot_threshold_fallbacks: 0,
            compile_budget_fallbacks: 0,
            block_too_short_fallbacks: 0,
            unsupported_instruction_fallbacks: 0,
            failed_block_fallbacks: 0,
            instruction_limit_fallbacks: 0,
            zero_exit_fallbacks: 0,
            slow_memory_exits: 0,
            fast_cache_hits: 0,
            map_cache_hits: 0,
            fast_cache_collisions: 0,
        }
    }

    fn count_request(&mut self, decision: Decision, collision: bool, candidate: usize)
        ensures
            *final(self) == counters_after(decision, *old(self), collision, candidate as int),
    {
        self.execute_requests = bump(self.execute_requests);
        match decision {
            Decision::Unavailable | Decision::FastRun(_) | Decision::FastLimit => {},
            _ => {
                if collision {
                    self.fast_cache_collisions = bump(self.fast_cache_collisions);
                }
            },
        }
        match decision {
            Decision::Unavailable => {
                self.cold_fallbacks = bump(self.cold_fallbacks);
                self.unavailable_fallbacks = bump(self.unavailable_fallbacks);
            },
            Decision::FastRun(_) => {
                self.fast_cache_hits = bump(self.fast_cache_hits);
            },
            Decision::FastLimit => {
                self.fast_cache_hits = bump(self.fast_cache_hits);
                self.instruction_limit_fallbacks = bump(self.instruction_limit_fallbacks);
            },
            Decision::Full => {
                self.cold_fallbacks = bump(self.cold_fallbacks);
                self.cache_capacity_fallbacks = bump(self.cache_capacity_fallbacks);
            },
            Decision::TrackedRun(_) => {
                self.map_cache_hits = bump(self.map_cache_hits);
            },
            Decision::TrackedLimit(_) => {
                self.map_cache_hits = bump(self.map_cache_hits);
                self.instruction_limit_fallbacks = bump(self.instruction_limit_fallbacks);
            },
            Decision::Failed => {
                self.cold_fallbacks = bump(self.cold_fallbacks);
                self.failed_block_fallbacks = bump(self.failed_block_fallbacks);
            },
            Decision::Cold | Decision::ShortCold => {
                self.cold_fallbacks = bump(self.cold_fallbacks);
                self.below_hot_threshold_fallbacks = bump(self.below_hot_threshold_fallbacks);
            },
            Decision::NoBudget => {
                self.cold_fallbacks = bump(self.cold_fallbacks);
                self.compile_budget_fallbacks = bump(self.compile_budget_fallbacks);
            },
            Decision::Unsuitable => {
                self.cold_fallbacks = bump(self.cold_fallbacks);
                if candidate == 0 {
                    self.unsupported_instruction_fallbacks = bump(
                        self.unsupported_instruction_fallbacks,
                    );
                } else {
                    self.block_too_short_fallbacks = bump(self.block_too_short_fallbacks);
                }
            },
            Decision::Compile => {},
        }
    }

    fn count_run(&mut self, block: CompiledBlock, completed: u64)
        ensures
            *final(self) == counters_after_run(*old(self), block, completed),
    {
        if completed == 0 {
            self.zero_exit_fallbacks = bump(self.zero_exit_fallbacks);
        } else {
            self.native_executions = bump(self.native_executions);
            self.native_instructions = raise(self.native_instructions, completed);
            if completed < block.instruction_count as u64 {
                self.slow_memory_exits = bump(self.slow_memory_exits);
            }
        }
    }

    fn count_compile(&mut self, result: Option<CompiledBlock>, elapsed_us: u128, limit: usize)
        ensures
            *final(self) == counters_after_compile(*old(self), result, elapsed_us, limit),
    {
        let us: u64 = if elapsed_us > u64::MAX as u128 {
            u64::MAX
        } else {
            elapsed_us as u64
        };
        self.compilation_attempts = bump(self.compilation_attempts);
        self.compilation_total_us = raise(self.compilation_total_us, us);
        if us > self.compilation_max_us {
            self.compilation_max_us = us;
        }
        match result {
            None => {
                self.compilation_failures = bump(self.compilation_failures);
            },
            Some(block) => {
                if block.instruction_count > limit {
                    self.instruction_limit_fallbacks = bump(self.instruction_limit_fallbacks);
                }
            },
        }
    }
}

impl JitEngine {
    /// Whether two engines agree on everything but blocks and counters.
    pub open spec fn same_settings(&self, other: &JitEngine) -> bool {
        &&& self.backend_available == other.backend_available
        &&& self.enabled == other.enabled
        &&& self.diagnostics_enabled == other.diagnostics_enabled
    }

    /// Whether this is an engine without blocks, as it comes into being.
    pub open spec fn is_new(&self, backend_available: bool) -> bool {
        &&& self.wf()
        &&& self.backend_available == backend_available
        &&& self.enabled
        &&& self.compile_budget == 1
        &&& self.compile_cooldown == 0
        &&& self.compiled_block_count == 0
        &&& !self.diagnostics_enabled
        &&& self.counters == zero_counters()
        &&& self.entries@ == Map::<u32, JitCacheEntry>::empty()
        &&& forall|slot: int|
            0 <= slot < FAST_JIT_CACHE_SLOTS ==> (#[trigger] self.fast_entries@[slot]).block is None
    }

    /// An engine without blocks.
    pub fn new(backend_available: bool) -> (engine: JitEngine)
        ensures
            engine.is_new(backend_available),
    {
        JitEngine {
            backend_available,
            entries: HashMap::new(),
            order: Vec::new(),
            fast_entries: vec![FastJitCacheEntry { start: 0, block: None }; FAST_JIT_CACHE_SLOTS],
            enabled: true,
            compile_budget: 1,
            compile_cooldown: 0,
            compiled_block_count: 0,
            diagnostics_enabled: false,
            counters: JitCounters::new(),
        }
    }

    fn lookup(&self, start: u32) -> (entry: JitCacheEntry)
        ensures
            entry == self.entry(start),
    {
        match self.entries.get(&start) {
            Some(entry) => *entry,
            None => JitCacheEntry {
                hits: 0,
                failed: false,
                failure_reason: JitFailureReason::Unknown,
                candidate_len: 0,
                blocking_instruction: 0,
                failed_fallbacks: 0,
                zero_instruction_exits: 0,
                block: None,
            },
        }
    }

    /// Records what is known of a block, and its native code in the direct-mapped cache.
    fn record(&mut self, start: u32, entry: JitCacheEntry, slot: usize, fast: FastJitCacheEntry)
        requires
            old(self).wf(),
            old(self).entries@.contains_key(start) || old(self).order@.len()
                < MAX_JIT_CACHE_ENTRIES,
            entry.failed ==> entry.block is None,
            slot == fast_slot(start),
            fast.block is Some ==> (fast.start == start && fast.block == entry.block) || (fast
                == old(self).fast_entries@[slot as int] && fast.start != start),
        ensures
            final(self).wf(),
            final(self).entries@ == old(self).entries@.insert(start, entry),
            final(self).fast_entries@ == old(self).fast_entries@.update(slot as int, fast),
            final(self).counters == old(self).counters,
            final(self).compile_budget == old(self).compile_budget,
            final(self).compile_cooldown == old(self).compile_cooldown,
            final(self).compiled_block_count == old(self).compiled_block_count,
            final(self).same_settings(old(self)),
            final(self).order@ == if old(self).entries@.contains_key(start) {
                old(self).order@
            } else {
                old(self).order@.push(start)
            },
    {
        if !self.entries.contains_key(&start) {
            assert(!self.order@.contains(start));
            self.order.push(start);
            assert forall|other: u32| #[trigger]
                self.order@.contains(other) <==> (old(self).order@.contains(other) || other
                    == start) by {
                if old(self).order@.contains(other) {
                    let i = choose|i: int| 0 <= i < old(self).order@.len() && old(self).order@[i] == other;
                    assert(self.order@[i] == other);
                }
                if other == start {
                    assert(self.order@[old(self).order@.len() as int] == start);
                }
            }
        }
        let _ = self.entries.insert(start, entry);
        self.fast_entries.set(slot, fast);
        proof {
            assert forall|i: int|
                0 <= i < FAST_JIT_CACHE_SLOTS && (#[trigger] self.fast_entries@[i]).block is Some
                implies {
                &&& i == fast_slot(self.fast_entries@[i].start)
                &&& self.entries@.contains_key(self.fast_entries@[i].start)
                &&& self.entries@[self.fast_entries@[i].start].block == self.fast_entries@[i].block
            } by {
                if i != slot {
                    assert(self.fast_entries@[i] == old(self).fast_entries@[i]);
                }
            }
        }
    }

    fn decide(&self, start: u32, instructions: &[u32], limit: usize) -> (decision: Decision)
        requires
            self.wf(),
        ensures
            decision == self.decision(start, instructions@, limit),
    {
        if !self.enabled || limit == 0 || !self.backend_available {
            return Decision::Unavailable;
        }
        let fast = self.fast_entries[(start / 4 % 16_384) as usize];
        if fast.start == start {
            if let Some(block) = fast.block {
                return if block.instruction_count <= limit {
                    Decision::FastRun(block)
                } else {
                    Decision::FastLimit
                };
            }
        }
        if self.order.len() >= MAX_JIT_CACHE_ENTRIES && !self.entries.contains_key(&start) {
            return Decision::Full;
        }
        let entry = self.lookup(start);
        if let Some(block) = entry.block {
            return if block.instruction_count <= limit {
                Decision::TrackedRun(block)
            } else {
                Decision::TrackedLimit(block)
            };
        }
        if entry.failed {
            return Decision::Failed;
        }
        let hits: u16 = if entry.hits == u16::MAX {
            u16::MAX
        } else {
            entry.hits + 1
        };
        if hits < HOT_BLOCK_THRESHOLD {
            return Decision::Cold;
        }
        if self.compile_budget == 0 {
            return Decision::NoBudget;
        }
        let candidate: usize = analyze_candidate(instructions).instruction_count;
        if candidate < MIN_HOT_SHORT_BLOCK_LEN {
            Decision::Unsuitable
        } else if candidate < MIN_COMPILED_BLOCK_LEN && hits < SHORT_BLOCK_HOT_THRESHOLD {
            Decision::ShortCold
        } else {
            Decision::Compile
        }
    }

    /// Says what to do with a block of which at most `limit` instructions may run.
    pub fn request(&mut self, start: u32, instructions: &[u32], limit: usize) -> (action: JitAction)
        requires
            old(self).wf(),
        ensures
            final(self).wf(),
            action == action_for(old(self).decision(start, instructions@, limit)),
            requested(*old(self), *final(self), start, instructions@, limit),
    {
        let decision = self.decide(start, instructions, limit);
        let slot: usize = (start / 4 % 16_384) as usize;
        let fast = self.fast_entries[slot];
        let analysis = analyze_candidate(instructions);
        let mut entry = self.lookup(start);
        assert(self.fast_entries@.update(slot as int, fast) =~= self.fast_entries@);
        match decision {
            Decision::Cold | Decision::NoBudget | Decision::ShortCold | Decision::Compile => {
                entry.hits = if entry.hits == u16::MAX {
                    u16::MAX
                } else {
                    entry.hits + 1
                };
                self.record(start, entry, slot, fast);
            },
            Decision::Unsuitable => {
                entry.hits = if entry.hits == u16::MAX {
                    u16::MAX
                } else {
                    entry.hits + 1
                };
                entry.failed = true;
                entry.failure_reason = analysis.failure_reason;
                entry.candidate_len = analysis.instruction_count as u8;
                entry.blocking_instruction = analysis.blocking_instruction;
                entry.failed_fallbacks = 1;
                self.record(start, entry, slot, fast);
            },
            Decision::Failed => {
                if self.diagnostics_enabled {
                    entry.failed_fallbacks = bump(entry.failed_fallbacks);
                }
                self.record(start, entry, slot, fast);
            },
            Decision::TrackedRun(block) | Decision::TrackedLimit(block) => {
                let ghost entries = self.entries@;
                self.record(
                    start,
                    entry,
                    slot,
                    FastJitCacheEntry { start, block: Some(block) },
                );
                assert(entries.insert(start, entry) =~= entries);
            },
            _ => {},
        }
        if let Decision::Compile = decision {
            self.compile_budget = 0;
        }
        if self.diagnostics_enabled {
            let collision: bool = fast.start != start && fast.block.is_some();
            self.counters.count_request(decision, collision, analysis.instruction_count);
        }
        match decision {
            Decision::FastRun(block) => JitAction::Run(block, RunOrigin::FastCache),
            Decision::TrackedRun(block) => JitAction::Run(block, RunOrigin::BlockMap),
            Decision::Compile => JitAction::Compile,
            _ => JitAction::Interpret,
        }
    }

    /// Takes the number of instructions that a run of native code completed.
    /// Returns it, or nothing where the block made no progress and is to be interpreted.
    pub fn finish_run(
        &mut self,
        start: u32,
        origin: RunOrigin,
        block: CompiledBlock,
        completed: u64,
    ) -> (result: Option<u64>)
        requires
            old(self).wf(),
        ensures
            final(self).wf(),
            result == if completed == 0 {
                None
            } else {
                Some(completed)
            },
            run_finished(*old(self), *final(self), start, origin, block, completed),
    {
        if self.diagnostics_enabled {
            self.counters.count_run(block, completed);
        }
        if self.entries.contains_key(&start) {
            let slot: usize = (start / 4 % 16_384) as usize;
            let mut fast = self.fast_entries[slot];
            let mut entry = self.lookup(start);
            let had_block: bool = entry.block.is_some();
            assert(self.fast_entries@.update(slot as int, fast) =~= self.fast_entries@);
            match origin {
                RunOrigin::Fresh => {},
                _ => {
                    if completed == 0 {
                        if entry.zero_instruction_exits < u8::MAX {
                            entry.zero_instruction_exits = entry.zero_instruction_exits + 1;
                        }
                        if entry.zero_instruction_exits >= MAX_ZERO_INSTRUCTION_EXITS {
                            entry.block = None;
                            entry.failed = true;
                            if had_block && fast.start == start {
                                fast.block = None;
                            }
                        }
                    } else if let RunOrigin::BlockMap = origin {
                        entry.zero_instruction_exits = 0;
                    }
                },
            }
            self.record(start, entry, slot, fast);
        }
        if completed == 0 {
            None
        } else {
            Some(completed)
        }
    }

    /// Takes the outcome of a compilation and how long it took.
    pub fn finish_compile(
        &mut self,
        start: u32,
        result: Option<CompiledBlock>,
        elapsed_us: u128,
        limit: usize,
    ) -> (action: JitAction)
        requires
            old(self).wf(),
            old(self).entries@.contains_key(start),
            !old(self).entries@[start].failed,
            old(self).entries@[start].block is None,
        ensures
            final(self).wf(),
            action == action_for_compiled(result, limit),
            compile_finished(*old(self), *final(self), start, result, elapsed_us, limit),
    {
        let slot: usize = (start / 4 % 16_384) as usize;
        let fast = self.fast_entries[slot];
        let mut entry = self.lookup(start);
        assert(self.fast_entries@.update(slot as int, fast) =~= self.fast_entries@);
        self.compile_cooldown = compile_cooldown_frames(elapsed_us);
        if self.diagnostics_enabled {
            self.counters.count_compile(result, elapsed_us, limit);
        }
        match result {
            Some(block) => {
                self.compiled_block_count = self.compiled_block_count.wrapping_add(1);
                entry.block = Some(block);
                self.record(start, entry, slot, FastJitCacheEntry { start, block: Some(block) });
                if block.instruction_count <= limit {
                    JitAction::Run(block, RunOrigin::Fresh)
                } else {
                    JitAction::Interpret
                }
            },
            None => {
                entry.failed = true;
                self.record(start, entry, slot, fast);
                JitAction::Interpret
            },
        }
    }

    /// Counts interpreted instructions.
    pub fn record_interpreter_execution(&mut self, completed: u64)
        ensures
            *final(self) == interpreted(*old(self), completed),
    {
        if self.diagnostics_enabled && completed != 0 {
            self.counters.interpreter_executions = bump(self.counters.interpreter_executions);
            self.counters.interpreter_instructions = raise(
                self.counters.interpreter_instructions,
                completed,
            );
        }
    }

    /// Switches translation on or off.
    pub fn set_enabled(&mut self, enabled: bool)
        ensures
            *final(self) == (JitEngine { enabled, ..*old(self) }),
    {
        self.enabled = enabled;
    }

    /// Switches the counters on, from zero, or off.
    pub fn set_diagnostics_enabled(&mut self, enabled: bool)
        ensures
            *final(self) == diagnostics_switched(*old(self), enabled),
    {
        if enabled && !self.diagnostics_enabled {
            self.counters = JitCounters::new();
        }
        self.diagnostics_enabled = enabled;
    }

    /// Forgets every block. Returns whether the host is to replace its backend,
    /// which still owns native code.
    pub fn clear(&mut self) -> (replace_backend: bool)
        requires
            old(self).wf(),
        ensures
            final(self).wf(),
            replace_backend == (old(self).compiled_block_count != 0 && old(self).backend_available),
            emptied(*old(self), *final(self)),
    {
        let replace_backend: bool = self.compiled_block_count != 0 && self.backend_available;
        self.entries.clear();
        self.order.clear();
        self.fast_entries = vec![FastJitCacheEntry { start: 0, block: None }; FAST_JIT_CACHE_SLOTS];
        self.compiled_block_count = 0;
        self.compile_budget = 1;
        self.compile_cooldown = 0;
        replace_backend
    }

    /// Takes whether the host has a backend.
    pub fn set_backend_available(&mut self, available: bool)
        ensures
            *final(self) == (JitEngine { backend_available: available, ..*old(self) }),
    {
        self.backend_available = available;
    }

    /// Grants a frame one compilation, unless an earlier one is still paid for.
    pub fn begin_frame(&mut self)
        ensures
            *final(self) == frame_begun(*old(self)),
    {
        if self.compile_cooldown == 0 {
            self.compile_budget = 1;
        } else {
            self.compile_cooldown = self.compile_cooldown - 1;
            self.compile_budget = 0;
        }
    }
}

/// Failed blocks that a diagnostics snapshot lists at most.
pub const JIT_FAILED_HOTSPOT_LIMIT: usize = 8;

/// A block that cannot be compiled, and how often it was requested since.
#[derive(Clone, Copy, Debug, PartialEq, Eq, Structural)]
pub struct JitFailedBlockHotspot {
    pub start: u32,
    pub reason: JitFailureReason,
    pub candidate_len: u8,
    pub blocking_instruction: u32,
    pub fallbacks: u64,
}

/// Aggregated native translation counters for performance diagnostics.
#[derive(Clone, Copy, Debug, PartialEq, Eq)]
pub struct JitDiagnostics {
    pub feature_available: bool,
    pub enabled: bool,
    pub backend_available: bool,
    pub tracked_blocks: usize,
    pub compiled_blocks: usize,
    pub failed_blocks: usize,
    pub execute_requests: u64,
    pub native_executions: u64,
    pub native_instructions: u64,
    pub interpreter_executions: u64,
    pub interpreter_instructions: u64,
    pub compilation_attempts: u64,
    pub compilation_failures: u64,
    pub compilation_total_us: u64,
    pub compilation_max_us: u64,
    pub cold_fallbacks: u64,
    pub unavailable_fallbacks: u64,
    pub cache_capacity_fallbacks: u64,
    pub below_hot_threshold_fallbacks: u64,
    pub compile_budget_fallbacks: u64,
    pub block_too_short_fallbacks: u64,
    pub unsupported_instruction_fallbacks: u64,
    pub failed_block_fallbacks: u64,
    pub instruction_limit_fallbacks: u64,
    pub zero_exit_fallbacks: u64,
    pub slow_memory_exits: u64,
    pub fast_cache_hits: u64,
    pub map_cache_hits: u64,
    pub fast_cache_collisions: u64,
    pub failed_hotspot_count: usize,
    pub failed_hotspots: [JitFailedBlockHotspot; 8],
}

/// How a failed block appears in a snapshot.
pub open spec fn hotspot(start: u32, entry: JitCacheEntry) -> JitFailedBlockHotspot {
    JitFailedBlockHotspot {
        start,
        reason: entry.failure_reason,
        candidate_len: entry.candidate_len,
        blocking_instruction: entry.blocking_instruction,
        fallbacks: entry.failed_fallbacks,
    }
}

/// First position of a ranking that a block with this many fallbacks displaces.
pub open spec fn rank_from(
    ranking: Seq<JitFailedBlockHotspot>,
    fallbacks: u64,
    index: int,
) -> int
    decreases ranking.len() - index,
{
    if 0 <= index < ranking.len() && fallbacks <= ranking[index].fallbacks {
        rank_from(ranking, fallbacks, index + 1)
    } else {
        index
    }
}

/// A ranking after one more block competed for a place.
pub open spec fn ranked(
    ranking: Seq<JitFailedBlockHotspot>,
    block: JitFailedBlockHotspot,
) -> Seq<JitFailedBlockHotspot> {
    let longer = ranking.insert(rank_from(ranking, block.fallbacks, 0), block);
    if longer.len() <= JIT_FAILED_HOTSPOT_LIMIT {
        longer
    } else {
        longer.take(JIT_FAILED_HOTSPOT_LIMIT as int)
    }
}

/// The failed blocks among `order` with the most fallbacks, most first.
pub open spec fn failed_ranking(
    order: Seq<u32>,
    entries: Map<u32, JitCacheEntry>,
) -> Seq<JitFailedBlockHotspot>
    decreases order.len(),
{
    if order.len() == 0 {
        Seq::empty()
    } else {
        let earlier = failed_ranking(order.drop_last(), entries);
        if entries[order.last()].failed {
            ranked(earlier, hotspot(order.last(), entries[order.last()]))
        } else {
            earlier
        }
    }
}

/// Number of blocks among `order` that failed.
pub open spec fn failed_count(order: Seq<u32>, entries: Map<u32, JitCacheEntry>) -> nat
    decreases order.len(),
{
    if order.len() == 0 {
        0
    } else {
        failed_count(order.drop_last(), entries) + if entries[order.last()].failed {
            1nat
        } else {
            0
        }
    }
}

/// Number of blocks among `order` that have native code.
pub open spec fn compiled_count(order: Seq<u32>, entries: Map<u32, JitCacheEntry>) -> nat
    decreases order.len(),
{
    if order.len() == 0 {
        0
    } else {
        compiled_count(order.drop_last(), entries) + if entries[order.last()].block is Some {
            1nat
        } else {
            0
        }
    }
}

/// Whether a ranking lists no block twice.
pub open spec fn distinct_blocks(ranking: Seq<JitFailedBlockHotspot>) -> bool {
    forall|i: int, j: int|
        0 <= i < j < ranking.len() ==> ranking[i].start != ranking[j].start
}

/// Whether a ranking is sorted by falling number of fallbacks.
pub open spec fn descending(ranking: Seq<JitFailedBlockHotspot>) -> bool {
    forall|i: int, j: int|
        0 <= i <= j < ranking.len() ==> ranking[i].fallbacks >= ranking[j].fallbacks
}

proof fn lemma_rank_from(ranking: Seq<JitFailedBlockHotspot>, fallbacks: u64, index: int)
    requires
        0 <= index <= ranking.len(),
    ensures
        index <= rank_from(ranking, fallbacks, index) <= ranking.len(),
        forall|i: int|
            index <= i < rank_from(ranking, fallbacks, index) ==> fallbacks
                <= ranking[i].fallbacks,
        rank_from(ranking, fallbacks, index) < ranking.len() ==> ranking[rank_from(
            ranking,
            fallbacks,
            index,
        )].fallbacks < fallbacks,
    decreases ranking.len() - index,
{
    if index < ranking.len() && fallbacks <= ranking[index].fallbacks {
        lemma_rank_from(ranking, fallbacks, index + 1);
    }
}

proof fn lemma_ranked(ranking: Seq<JitFailedBlockHotspot>, block: JitFailedBlockHotspot)
    requires
        descending(ranking),
        ranking.len() <= JIT_FAILED_HOTSPOT_LIMIT,
    ensures
        descending(ranked(ranking, block)),
        ranked(ranking, block).len() == if ranking.len() < JIT_FAILED_HOTSPOT_LIMIT {
            ranking.len() + 1
        } else {
            ranking.len()
        },
        forall|other: JitFailedBlockHotspot|
            (ranking.contains(other) || other == block) && !(#[trigger] ranked(
                ranking,
                block,
            ).contains(other)) ==> ranked(ranking, block).len() == JIT_FAILED_HOTSPOT_LIMIT && forall|i: int|
                0 <= i < ranked(ranking, block).len() ==> #[trigger] ranked(
                    ranking,
                    block,
                )[i].fallbacks >= other.fallbacks,
        forall|other: JitFailedBlockHotspot|
            ranked(ranking, block).contains(other) ==> ranking.contains(other) || other == block,
        ranking.len() == JIT_FAILED_HOTSPOT_LIMIT ==> forall|i: int|
            0 <= i < ranking.len() ==> #[trigger] ranked(ranking, block)[i].fallbacks
                >= ranking[i].fallbacks,
{
    let at = rank_from(ranking, block.fallbacks, 0);
    lemma_rank_from(ranking, block.fallbacks, 0);
    let longer = ranking.insert(at, block);
    let after = ranked(ranking, block);
    assert(longer[at] == block);
    assert forall|i: int| 0 <= i < longer.len() implies longer[i] == (if i < at {
        ranking[i]
    } else if i == at {
        block
    } else {
        ranking[i - 1]
    }) by {}
    assert forall|i: int| 0 <= i < after.len() implies after[i] == longer[i] by {}
    assert forall|other: JitFailedBlockHotspot|
        (ranking.contains(other) || other == block) && !after.contains(other) implies after.len()
        == JIT_FAILED_HOTSPOT_LIMIT && forall|i: int|
        0 <= i < after.len() ==> #[trigger] after[i].fallbacks >= other.fallbacks by {
        let place = if ranking.contains(other) {
            let i = choose|i: int| 0 <= i < ranking.len() && ranking[i] == other;
            if i < at {
                i
            } else {
                i + 1
            }
        } else {
            at
        };
        assert(longer[place] == other);
        if longer.len() <= JIT_FAILED_HOTSPOT_LIMIT || place < JIT_FAILED_HOTSPOT_LIMIT {
            assert(after[place] == other);
            assert(false);
        }
    }
    assert forall|other: JitFailedBlockHotspot| after.contains(other) implies ranking.contains(
        other,
    ) || other == block by {
        let i = choose|i: int| 0 <= i < after.len() && after[i] == other;
        if i < at {
            assert(ranking[i] == other);
        } else if i > at {
            assert(ranking[i - 1] == other);
        }
    }
}

proof fn lemma_ranked_blocks_are_distinct(
    ranking: Seq<JitFailedBlockHotspot>,
    block: JitFailedBlockHotspot,
)
    requires
        distinct_blocks(ranking),
        forall|i: int| 0 <= i < ranking.len() ==> #[trigger] ranking[i].start != block.start,
    ensures
        distinct_blocks(ranked(ranking, block)),
{
    let at = rank_from(ranking, block.fallbacks, 0);
    lemma_rank_from(ranking, block.fallbacks, 0);
    let longer = ranking.insert(at, block);
    let after = ranked(ranking, block);
    assert forall|i: int| 0 <= i < longer.len() implies longer[i] == (if i < at {
        ranking[i]
    } else if i == at {
        block
    } else {
        ranking[i - 1]
    }) by {}
    assert forall|i: int| 0 <= i < after.len() implies after[i] == longer[i] by {}
}

/// A snapshot ranks failed blocks by falling number of fallbacks, lists as many
/// as there are up to the limit, lists only failed blocks and none of them twice,
/// and leaves out none that has more fallbacks than one it lists.
pub proof fn law_ranking_keeps_the_worst(order: Seq<u32>, entries: Map<u32, JitCacheEntry>)
    ensures
        descending(failed_ranking(order, entries)),
        failed_ranking(order, entries).len() == if failed_count(order, entries)
            < JIT_FAILED_HOTSPOT_LIMIT {
            failed_count(order, entries) as int
        } else {
            JIT_FAILED_HOTSPOT_LIMIT as int
        },
        forall|block: JitFailedBlockHotspot| #[trigger]
            failed_ranking(order, entries).contains(block) ==> exists|start: u32|
                order.contains(start) && entries[start].failed && block == #[trigger] hotspot(
                    start,
                    entries[start],
                ),
        forall|start: u32|
            order.contains(start) && entries[start].failed && !failed_ranking(
                order,
                entries,
            ).contains(#[trigger] hotspot(start, entries[start])) ==> forall|i: int|
                0 <= i < failed_ranking(order, entries).len() ==> #[trigger] failed_ranking(
                    order,
                    entries,
                )[i].fallbacks >= entries[start].failed_fallbacks,
        order.no_duplicates() ==> distinct_blocks(failed_ranking(order, entries)),
    decreases order.len(),
{
    if order.len() > 0 {
        let earlier = order.drop_last();
        let last = order.last();
        law_ranking_keeps_the_worst(earlier, entries);
        let before = failed_ranking(earlier, entries);
        let after = failed_ranking(order, entries);
        if order.no_duplicates() {
            assert(earlier.no_duplicates());
        }
        assert forall|start: u32| #[trigger] order.contains(start) implies earlier.contains(start)
            || start == last by {
            let i = choose|i: int| 0 <= i < order.len() && order[i] == start;
            if i < earlier.len() {
                assert(earlier[i] == start);
            }
        }
        assert forall|start: u32| #[trigger] earlier.contains(start) implies order.contains(
            start,
        ) by {
            let i = choose|i: int| 0 <= i < earlier.len() && earlier[i] == start;
            assert(order[i] == start);
        }
        assert(order.contains(last)) by {
            assert(order[order.len() - 1] == last);
        }
        if entries[last].failed {
            let block = hotspot(last, entries[last]);
            lemma_ranked(before, block);
            assert(after == ranked(before, block));
            if order.no_duplicates() {
                assert forall|i: int| 0 <= i < before.len() implies #[trigger] before[i].start
                    != last by {
                    assert(before.contains(before[i]));
                    let start = choose|start: u32|
                        earlier.contains(start) && entries[start].failed && before[i]
                            == #[trigger] hotspot(start, entries[start]);
                    let k = choose|k: int| 0 <= k < earlier.len() && earlier[k] == start;
                    assert(order[k] == start);
                }
                lemma_ranked_blocks_are_distinct(before, block);
            }
            assert forall|start: u32|
                order.contains(start) && entries[start].failed && !after.contains(
                    #[trigger] hotspot(start, entries[start]),
                ) implies forall|i: int|
                0 <= i < after.len() ==> #[trigger] after[i].fallbacks
                    >= entries[start].failed_fallbacks by {
                let other = hotspot(start, entries[start]);
                assert(!ranked(before, block).contains(other));
                if start != last && !before.contains(other) {
                    assert(earlier.contains(start));
                    assert(before.len() == JIT_FAILED_HOTSPOT_LIMIT) by {
                        if before.len() < JIT_FAILED_HOTSPOT_LIMIT {
                            lemma_short_ranking_is_complete(earlier, entries, start);
                        }
                    }
                    assert forall|i: int| 0 <= i < after.len() implies #[trigger] after[i].fallbacks
                        >= entries[start].failed_fallbacks by {
                        assert(before[i].fallbacks >= entries[start].failed_fallbacks);
                    }
                } else {
                    assert(before.contains(other) || other == block);
                    assert forall|i: int| 0 <= i < after.len() implies #[trigger] after[i].fallbacks
                        >= entries[start].failed_fallbacks by {
                        assert(ranked(before, block)[i].fallbacks >= other.fallbacks);
                    }
                }
            }
        }
        assert forall|block: JitFailedBlockHotspot| #[trigger]
            after.contains(block) implies exists|start: u32|
            order.contains(start) && entries[start].failed && block == #[trigger] hotspot(
                start,
                entries[start],
            ) by {
            if before.contains(block) {
                let start = choose|start: u32|
                    earlier.contains(start) && entries[start].failed && block == #[trigger] hotspot(
                        start,
                        entries[start],
                    );
                assert(order.contains(start));
            } else {
                assert(block == hotspot(last, entries[last]));
            }
        }
    }
}

/// A ranking that has room left lists every failed block.
proof fn lemma_short_ranking_is_complete(
    order: Seq<u32>,
    entries: Map<u32, JitCacheEntry>,
    start: u32,
)
    requires
        failed_ranking(order, entries).len() < JIT_FAILED_HOTSPOT_LIMIT,
        order.contains(start),
        entries[start].failed,
    ensures
        failed_ranking(order, entries).contains(hotspot(start, entries[start])),
    decreases order.len(),
{
    let earlier = order.drop_last();
    let last = order.last();
    let before = failed_ranking(earlier, entries);
    let after = failed_ranking(order, entries);
    let other = hotspot(start, entries[start]);
    law_ranking_keeps_the_worst(earlier, entries);
    if entries[last].failed {
        lemma_ranked(before, hotspot(last, entries[last]));
    }
    if start != last {
        let i = choose|i: int| 0 <= i < order.len() && order[i] == start;
        assert(earlier[i] == start);
        assert(before.len() < JIT_FAILED_HOTSPOT_LIMIT);
        lemma_short_ranking_is_complete(earlier, entries, start);
    }
}

impl JitDiagnostics {
    /// Whether these are the numbers that an engine counted.
    pub open spec fn counts(self, counters: JitCounters) -> bool {
        &&& self.execute_requests == counters.execute_requests
        &&& self.native_executions == counters.native_executions
        &&& self.native_instructions == counters.native_instructions
        &&& self.interpreter_executions == counters.interpreter_executions
        &&& self.interpreter_instructions == counters.interpreter_instructions
        &&& self.compilation_attempts == counters.compilation_attempts
        &&& self.compilation_failures == counters.compilation_failures
        &&& self.compilation_total_us == counters.compilation_total_us
        &&& self.compilation_max_us == counters.compilation_max_us
        &&& self.cold_fallbacks == counters.cold_fallbacks
        &&& self.unavailable_fallbacks == counters.unavailable_fallbacks
        &&& self.cache_capacity_fallbacks == counters.cache_capacity_fallbacks
        &&& self.below_hot_threshold_fallbacks == counters.below_hot_threshold_fallbacks
        &&& self.compile_budget_fallbacks == counters.compile_budget_fallbacks
        &&& self.block_too_short_fallbacks == counters.block_too_short_fallbacks
        &&& self.unsupported_instruction_fallbacks == counters.unsupported_instruction_fallbacks
        &&& self.failed_block_fallbacks == counters.failed_block_fallbacks
        &&& self.instruction_limit_fallbacks == counters.instruction_limit_fallbacks
        &&& self.zero_exit_fallbacks == counters.zero_exit_fallbacks
        &&& self.slow_memory_exits == counters.slow_memory_exits
        &&& self.fast_cache_hits == counters.fast_cache_hits
        &&& self.map_cache_hits == counters.map_cache_hits
        &&& self.fast_cache_collisions == counters.fast_cache_collisions
    }
}

impl Default for JitDiagnostics {
    /// A snapshot of nothing: there is no engine.
    fn default() -> (snapshot: JitDiagnostics)
        ensures
            !snapshot.feature_available,
            !snapshot.enabled,
            !snapshot.backend_available,
            snapshot.tracked_blocks == 0,
            snapshot.compiled_blocks == 0,
            snapshot.failed_blocks == 0,
            snapshot.counts(zero_counters()),
            snapshot.failed_hotspot_count == 0,
            forall|i: int|
                0 <= i < JIT_FAILED_HOTSPOT_LIMIT ==> snapshot.failed_hotspots@[i] == no_hotspot(),
    {
        let nothing = JitFailedBlockHotspot {
            start: 0,
            reason: JitFailureReason::Unknown,
            candidate_len: 0,
            blocking_instruction: 0,
            fallbacks: 0,
        };
        JitDiagnostics {
            feature_available: false,
            enabled: false,
            backend_available: false,
            tracked_blocks: 0,
            compiled_blocks: 0,
            failed_blocks: 0,
            execute_requests: 0,
            native_executions: 0,
            native_instructions: 0,
            interpreter_executions: 0,
            interpreter_instructions: 0,
            compilation_attempts: 0,
            compilation_failures: 0,
            compilation_total_us: 0,
            compilation_max_us: 0,
            cold_fallbacks: 0,
            unavailable_fallbacks: 0,
            cache_capacity_fallbacks: 0,
            below_hot_threshold_fallbacks: 0,
            compile_budget_fallbacks: 0,
            block_too_short_fallbacks: 0,
            unsupported_instruction_fallbacks: 0,
            failed_block_fallbacks: 0,
            instruction_limit_fallbacks: 0,
            zero_exit_fallbacks: 0,
            slow_memory_exits: 0,
            fast_cache_hits: 0,
            map_cache_hits: 0,
            fast_cache_collisions: 0,
            failed_hotspot_count: 0,
            failed_hotspots: [
                nothing,
                nothing,
                nothing,
                nothing,
                nothing,
                nothing,
                nothing,
                nothing,
            ],
        }
    }
}

/// No block.
pub open spec fn no_hotspot() -> JitFailedBlockHotspot {
    JitFailedBlockHotspot {
        start: 0,
        reason: JitFailureReason::Unknown,
        candidate_len: 0,
        blocking_instruction: 0,
        fallbacks: 0,
    }
}

impl JitEngine {
    /// Whether a snapshot shows this engine.
    pub open spec fn snapshot_is(&self, snapshot: JitDiagnostics) -> bool {
        &&& snapshot.feature_available
        &&& snapshot.enabled == self.enabled
        &&& snapshot.backend_available == self.backend_available
        &&& snapshot.tracked_blocks == self.order@.len()
        &&& snapshot.compiled_blocks == compiled_count(self.order@, self.entries@)
        &&& snapshot.failed_blocks == failed_count(self.order@, self.entries@)
        &&& snapshot.counts(self.counters)
        &&& snapshot.failed_hotspot_count <= JIT_FAILED_HOTSPOT_LIMIT
        &&& snapshot.failed_hotspots@.take(snapshot.failed_hotspot_count as int) == failed_ranking(
            self.order@,
            self.entries@,
        )
        &&& forall|i: int|
            snapshot.failed_hotspot_count <= i < JIT_FAILED_HOTSPOT_LIMIT
                ==> #[trigger] snapshot.failed_hotspots@[i] == no_hotspot()
    }

    /// A snapshot of the engine.
    pub fn diagnostics(&self) -> (snapshot: JitDiagnostics)
        requires
            self.wf(),
        ensures
            self.snapshot_is(snapshot),
    {
        let nothing = JitFailedBlockHotspot {
            start: 0,
            reason: JitFailureReason::Unknown,
            candidate_len: 0,
            blocking_instruction: 0,
            fallbacks: 0,
        };
        let mut hotspots: [JitFailedBlockHotspot; 8] = [
            nothing,
            nothing,
            nothing,
            nothing,
            nothing,
            nothing,
            nothing,
            nothing,
        ];
        let mut count: usize = 0;
        let mut compiled: usize = 0;
        let mut failed: usize = 0;
        let mut index: usize = 0;
        assert(self.order@.take(0) =~= Seq::<u32>::empty());
        assert(hotspots@.take(0) =~= Seq::<JitFailedBlockHotspot>::empty());
        while index < self.order.len()
            invariant
                self.wf(),
                index <= self.order@.len(),
                count <= JIT_FAILED_HOTSPOT_LIMIT,
                compiled <= index,
                failed <= index,
                compiled == compiled_count(self.order@.take(index as int), self.entries@),
                failed == failed_count(self.order@.take(index as int), self.entries@),
                hotspots@.take(count as int) == failed_ranking(
                    self.order@.take(index as int),
                    self.entries@,
                ),
                forall|i: int|
                    count <= i < JIT_FAILED_HOTSPOT_LIMIT ==> #[trigger] hotspots@[i]
                        == no_hotspot(),
            decreases self.order@.len() - index,
        {
            let start: u32 = self.order[index];
            proof {
                assert(self.order@.contains(start));
                assert(self.order@.take(index + 1).drop_last() =~= self.order@.take(index as int));
                assert(self.order@.take(index + 1).last() == start);
            }
            let entry = self.lookup(start);
            if entry.block.is_some() {
                compiled = compiled + 1;
            }
            if entry.failed {
                failed = failed + 1;
                let block = JitFailedBlockHotspot {
                    start,
                    reason: entry.failure_reason,
                    candidate_len: entry.candidate_len,
                    blocking_instruction: entry.blocking_instruction,
                    fallbacks: entry.failed_fallbacks,
                };
                count = insert_hotspot(&mut hotspots, count, block);
            }
            index = index + 1;
        }
        assert(self.order@.take(index as int) =~= self.order@);
        JitDiagnostics {
            feature_available: true,
            enabled: self.enabled,
            backend_available: self.backend_available,
            tracked_blocks: self.order.len(),
            compiled_blocks: compiled,
            failed_blocks: failed,
            execute_requests: self.counters.execute_requests,
            native_executions: self.counters.native_executions,
            native_instructions: self.counters.native_instructions,
            interpreter_executions: self.counters.interpreter_executions,
            interpreter_instructions: self.counters.interpreter_instructions,
            compilation_attempts: self.counters.compilation_attempts,
            compilation_failures: self.counters.compilation_failures,
            compilation_total_us: self.counters.compilation_total_us,
            compilation_max_us: self.counters.compilation_max_us,
            cold_fallbacks: self.counters.cold_fallbacks,
            unavailable_fallbacks: self.counters.unavailable_fallbacks,
            cache_capacity_fallbacks: self.counters.cache_capacity_fallbacks,
            below_hot_threshold_fallbacks: self.counters.below_hot_threshold_fallbacks,
            compile_budget_fallbacks: self.counters.compile_budget_fallbacks,
            block_too_short_fallbacks: self.counters.block_too_short_fallbacks,
            unsupported_instruction_fallbacks: self.counters.unsupported_instruction_fallbacks,
            failed_block_fallbacks: self.counters.failed_block_fallbacks,
            instruction_limit_fallbacks: self.counters.instruction_limit_fallbacks,
            zero_exit_fallbacks: self.counters.zero_exit_fallbacks,
            slow_memory_exits: self.counters.slow_memory_exits,
            fast_cache_hits: self.counters.fast_cache_hits,
            map_cache_hits: self.counters.map_cache_hits,
            fast_cache_collisions: self.counters.fast_cache_collisions,
            failed_hotspot_count: count,
            failed_hotspots: hotspots,
        }
    }
}

/// Lets a block compete for a place in a ranking. Returns the new number of places taken.
fn insert_hotspot(
    hotspots: &mut [JitFailedBlockHotspot; 8],
    count: usize,
    block: JitFailedBlockHotspot,
) -> (after: usize)
    requires
        count <= JIT_FAILED_HOTSPOT_LIMIT,
    ensures
        after <= JIT_FAILED_HOTSPOT_LIMIT,
        count <= after,
        final(hotspots)@.take(after as int) == ranked(old(hotspots)@.take(count as int), block),
        forall|i: int|
            after <= i < JIT_FAILED_HOTSPOT_LIMIT ==> #[trigger] final(hotspots)@[i] == old(
                hotspots,
            )@[i],
{
    let ghost ranking = hotspots@.take(count as int);
    let mut at: usize = 0;
    while at < count && block.fallbacks <= hotspots[at].fallbacks
        invariant
            at <= count <= JIT_FAILED_HOTSPOT_LIMIT,
            ranking == hotspots@.take(count as int),
            hotspots@.len() == 8,
            rank_from(ranking, block.fallbacks, 0) == rank_from(
                ranking,
                block.fallbacks,
                at as int,
            ),
        decreases count - at,
    {
        at = at + 1;
    }
    if at >= JIT_FAILED_HOTSPOT_LIMIT {
        assert(ranked(ranking, block) =~= ranking);
        return count;
    }
    let after: usize = if count < JIT_FAILED_HOTSPOT_LIMIT {
        count + 1
    } else {
        count
    };
    let mut index: usize = after - 1;
    while index > at
        invariant
            at <= index < after <= JIT_FAILED_HOTSPOT_LIMIT,
            count <= after <= count + 1,
            hotspots@.len() == 8,
            old(hotspots)@.len() == 8,
            forall|i: int| 0 <= i <= index && i < count ==> hotspots@[i] == old(hotspots)@[i],
            forall|i: int| index < i < after ==> hotspots@[i] == old(hotspots)@[i - 1],
            forall|i: int| after <= i < 8 ==> hotspots@[i] == old(hotspots)@[i],
        decreases index,
    {
        hotspots[index] = hotspots[index - 1];
        index = index - 1;
    }
    hotspots[at] = block;
    assert(hotspots@.take(after as int) =~= ranked(ranking, block));
    after
}

/// An engine at the beginning of the next frame.
pub open spec fn frame_begun(engine: JitEngine) -> JitEngine {
    JitEngine {
        compile_budget: if engine.compile_cooldown == 0 {
            1
        } else {
            0
        },
        compile_cooldown: if engine.compile_cooldown == 0 {
            0
        } else {
            (engine.compile_cooldown - 1) as u8
        },
        ..engine
    }
}

/// An engine after the beginnings of so many frames.
pub open spec fn frames_begun(engine: JitEngine, frames: nat) -> JitEngine
    decreases frames,
{
    if frames == 0 {
        engine
    } else {
        frame_begun(frames_begun(engine, (frames - 1) as nat))
    }
}

/// A compilation keeps the engine from compiling in as many further frames as
/// its pause has, and in no more.
pub proof fn law_pause_lasts_its_frames(engine: JitEngine, frames: nat)
    requires
        frames > 0,
    ensures
        frames_begun(engine, frames).compile_budget == if frames <= engine.compile_cooldown {
            0u8
        } else {
            1u8
        },
{
    lemma_cooldown_after(engine, (frames - 1) as nat);
}

proof fn lemma_cooldown_after(engine: JitEngine, frames: nat)
    ensures
        frames_begun(engine, frames).compile_cooldown == if frames <= engine.compile_cooldown {
            (engine.compile_cooldown - frames) as u8
        } else {
            0u8
        },
    decreases frames,
{
    if frames > 0 {
        lemma_cooldown_after(engine, (frames - 1) as nat);
    }
}

/// Without a compilation left in this frame, no request asks for one.
pub proof fn law_no_budget_no_compilation(
    engine: JitEngine,
    start: u32,
    code: Seq<u32>,
    limit: usize,
)
    requires
        engine.compile_budget == 0,
    ensures
        action_for(engine.decision(start, code, limit)) != JitAction::Compile,
{
}

/// What was compiled is run from then on, wherever as many instructions may run.
pub proof fn law_compiled_code_is_run(
    before: JitEngine,
    after: JitEngine,
    start: u32,
    block: CompiledBlock,
    elapsed_us: u128,
    first_limit: usize,
    code: Seq<u32>,
    limit: usize,
)
    requires
        before.wf(),
        compile_finished(before, after, start, Some(block), elapsed_us, first_limit),
        after.enabled,
        after.backend_available,
        0 < limit,
        block.instruction_count <= limit,
    ensures
        action_for(after.decision(start, code, limit)) == JitAction::Run(
            block,
            RunOrigin::FastCache,
        ),
{
    assert(0 <= fast_slot(start) < FAST_JIT_CACHE_SLOTS);
}

/// After blocks were forgotten, no native code of theirs is run.
pub proof fn law_forgotten_code_is_not_run(
    before: JitEngine,
    after: JitEngine,
    start: u32,
    code: Seq<u32>,
    limit: usize,
)
    requires
        emptied(before, after),
    ensures
        !(action_for(after.decision(start, code, limit)) is Run),
{
    assert(0 <= fast_slot(start) < FAST_JIT_CACHE_SLOTS);
    assert(after.fast_entries@[fast_slot(start)].block is None);
}

/// While diagnostics are off, nothing is counted.
pub proof fn law_nothing_is_counted_without_diagnostics(
    before: JitEngine,
    after: JitEngine,
    start: u32,
    code: Seq<u32>,
    limit: usize,
    origin: RunOrigin,
    block: CompiledBlock,
    completed: u64,
    result: Option<CompiledBlock>,
    elapsed_us: u128,
)
    requires
        !before.diagnostics_enabled,
    ensures
        requested(before, after, start, code, limit) ==> after.counters == before.counters,
        run_finished(before, after, start, origin, block, completed) ==> after.counters
            == before.counters,
        compile_finished(before, after, start, result, elapsed_us, limit) ==> after.counters
            == before.counters,
        interpreted(before, completed).counters == before.counters,
{
}

/// Whether an engine went through a compilation that was asked for, and through the
/// run of what came of it.
pub open spec fn compiled_and_run(
    before: JitEngine,
    after: JitEngine,
    start: u32,
    limit: usize,
) -> bool {
    exists|built: JitEngine, result: Option<CompiledBlock>, elapsed_us: u128|
        #[trigger] compile_finished(before, built, start, result, elapsed_us, limit)
            && match action_for_compiled(result, limit) {
            JitAction::Run(block, origin) => ran(built, after, start, origin, block),
            _ => after == built,
        }
}

/// Whether an engine went through a run of native code.
pub open spec fn ran(
    before: JitEngine,
    after: JitEngine,
    start: u32,
    origin: RunOrigin,
    block: CompiledBlock,
) -> bool {
    exists|completed: u64| run_finished(before, after, start, origin, block, completed)
}

/// Whether an engine went through a whole request: what it asked for was done and
/// reported.
pub open spec fn executed(
    before: JitEngine,
    after: JitEngine,
    start: u32,
    code: Seq<u32>,
    limit: usize,
) -> bool {
    exists|asked: JitEngine|
        #[trigger] requested(before, asked, start, code, limit) && match action_for(
            before.decision(start, code, limit),
        ) {
            JitAction::Interpret => after == asked,
            JitAction::Run(block, origin) => ran(asked, after, start, origin, block),
            JitAction::Compile => compiled_and_run(asked, after, start, limit),
        }
}

/// Whether an engine went through one use of it.
pub open spec fn used(before: JitEngine, after: JitEngine) -> bool {
    ||| exists|start: u32, code: Seq<u32>, limit: usize|
        executed(before, after, start, code, limit)
    ||| exists|completed: u64| after == #[trigger] interpreted(before, completed)
    ||| exists|enabled: bool| after == #[trigger] diagnostics_switched(before, enabled)
    ||| after == frame_begun(before)
    ||| after == (JitEngine { enabled: after.enabled, ..before })
    ||| after == (JitEngine { backend_available: after.backend_available, ..before })
    ||| emptied(before, after)
}

/// Requests that came to an end, by their outcomes.
pub open spec fn outcomes(counters: JitCounters) -> int {
    counters.native_executions + counters.cold_fallbacks + counters.instruction_limit_fallbacks
        + counters.zero_exit_fallbacks + counters.compilation_failures
}

/// Requests that were interpreted without native code, by their reasons.
pub open spec fn cold_reasons(counters: JitCounters) -> int {
    counters.unavailable_fallbacks + counters.cache_capacity_fallbacks
        + counters.below_hot_threshold_fallbacks + counters.compile_budget_fallbacks
        + counters.block_too_short_fallbacks + counters.unsupported_instruction_fallbacks
        + counters.failed_block_fallbacks
}

/// Whether no counter of requests or of their outcomes has reached its limit.
pub open spec fn countable(counters: JitCounters) -> bool {
    &&& counters.execute_requests < u64::MAX
    &&& counters.native_executions < u64::MAX
    &&& counters.cold_fallbacks < u64::MAX
    &&& counters.instruction_limit_fallbacks < u64::MAX
    &&& counters.zero_exit_fallbacks < u64::MAX
    &&& counters.compilation_failures < u64::MAX
    &&& counters.unavailable_fallbacks < u64::MAX
    &&& counters.cache_capacity_fallbacks < u64::MAX
    &&& counters.below_hot_threshold_fallbacks < u64::MAX
    &&& counters.compile_budget_fallbacks < u64::MAX
    &&& counters.block_too_short_fallbacks < u64::MAX
    &&& counters.unsupported_instruction_fallbacks < u64::MAX
    &&& counters.failed_block_fallbacks < u64::MAX
}

/// Whether there are as many outcomes as requests, but for so many that are still
/// open, and as many reasons as cold fallbacks; as far as counters can tell.
pub open spec fn balanced(counters: JitCounters, open: int) -> bool {
    countable(counters) ==> {
        &&& counters.execute_requests == outcomes(counters) + open
        &&& counters.cold_fallbacks == cold_reasons(counters)
    }
}

proof fn lemma_request_balance(
    decision: Decision,
    counters: JitCounters,
    collision: bool,
    candidate: int,
)
    requires
        balanced(counters, 0),
    ensures
        balanced(
            counters_after(decision, counters, collision, candidate),
            if action_for(decision) == JitAction::Interpret {
                0
            } else {
                1
            },
        ),
{
}

proof fn lemma_run_balance(counters: JitCounters, block: CompiledBlock, completed: u64)
    requires
        balanced(counters, 1),
    ensures
        balanced(counters_after_run(counters, block, completed), 0),
{
}

proof fn lemma_compile_balance(
    counters: JitCounters,
    result: Option<CompiledBlock>,
    elapsed_us: u128,
    limit: usize,
)
    requires
        balanced(counters, 1),
    ensures
        balanced(
            counters_after_compile(counters, result, elapsed_us, limit),
            if action_for_compiled(result, limit) == JitAction::Interpret {
                0
            } else {
                1
            },
        ),
{
}

proof fn lemma_executed_balance(
    before: JitEngine,
    after: JitEngine,
    start: u32,
    code: Seq<u32>,
    limit: usize,
)
    requires
        executed(before, after, start, code, limit),
        balanced(before.counters, 0),
    ensures
        balanced(after.counters, 0),
{
    let decision = before.decision(start, code, limit);
    let slot = before.fast_entries@[fast_slot(start)];
    lemma_request_balance(
        decision,
        before.counters,
        slot.start != start && slot.block is Some,
        candidate_len(code),
    );
    let asked = choose|asked: JitEngine|
        #[trigger] requested(before, asked, start, code, limit) && match action_for(decision) {
            JitAction::Interpret => after == asked,
            JitAction::Run(block, origin) => ran(asked, after, start, origin, block),
            JitAction::Compile => compiled_and_run(asked, after, start, limit),
        };
    match action_for(decision) {
        JitAction::Interpret => {},
        JitAction::Run(block, origin) => {
            let completed = choose|completed: u64|
                run_finished(asked, after, start, origin, block, completed);
            if before.diagnostics_enabled {
                lemma_run_balance(asked.counters, block, completed);
            }
        },
        JitAction::Compile => {
            let (built, result, elapsed_us) = choose|
                built: JitEngine,
                result: Option<CompiledBlock>,
                elapsed_us: u128,
            |
                #[trigger] compile_finished(asked, built, start, result, elapsed_us, limit)
                    && match action_for_compiled(result, limit) {
                    JitAction::Run(block, origin) => ran(built, after, start, origin, block),
                    _ => after == built,
                };
            if before.diagnostics_enabled {
                lemma_compile_balance(asked.counters, result, elapsed_us, limit);
            }
            match action_for_compiled(result, limit) {
                JitAction::Run(block, origin) => {
                    let completed = choose|completed: u64|
                        run_finished(built, after, start, origin, block, completed);
                    if before.diagnostics_enabled {
                        lemma_run_balance(built.counters, block, completed);
                    }
                },
                _ => {},
            }
        },
    }
}

/// However an engine was used since it came into being: as long as no counter has
/// reached its limit, every counted request has one outcome, and every cold fallback
/// one reason.
pub proof fn law_every_request_has_one_outcome(history: Seq<JitEngine>, snapshot: JitDiagnostics)
    requires
        history.len() > 0,
        history[0].is_new(history[0].backend_available),
        forall|i: int, j: int|
            0 <= i && j == i + 1 && j < history.len() ==> #[trigger] used(history[i], history[j]),
        history.last().snapshot_is(snapshot),
        countable(history.last().counters),
    ensures
        snapshot.execute_requests == snapshot.native_executions + snapshot.cold_fallbacks
            + snapshot.instruction_limit_fallbacks + snapshot.zero_exit_fallbacks
            + snapshot.compilation_failures,
        snapshot.cold_fallbacks == snapshot.unavailable_fallbacks
            + snapshot.cache_capacity_fallbacks + snapshot.below_hot_threshold_fallbacks
            + snapshot.compile_budget_fallbacks + snapshot.block_too_short_fallbacks
            + snapshot.unsupported_instruction_fallbacks + snapshot.failed_block_fallbacks,
{
    lemma_history_balance(history, history.len() - 1);
}

proof fn lemma_history_balance(history: Seq<JitEngine>, index: int)
    requires
        0 <= index < history.len(),
        history[0].is_new(history[0].backend_available),
        forall|i: int, j: int|
            0 <= i && j == i + 1 && j < history.len() ==> #[trigger] used(history[i], history[j]),
    ensures
        balanced(history[index].counters, 0),
    decreases index,
{
    if index > 0 {
        let before = history[index - 1];
        let after = history[index];
        lemma_history_balance(history, index - 1);
        assert(used(before, after));
        if exists|start: u32, code: Seq<u32>, limit: usize|
            executed(before, after, start, code, limit) {
            let (start, code, limit) = choose|start: u32, code: Seq<u32>, limit: usize|
                executed(before, after, start, code, limit);
            lemma_executed_balance(before, after, start, code, limit);
        }
    }
}

} // verus!
