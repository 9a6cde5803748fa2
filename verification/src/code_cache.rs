//! Hooked addresses, and the cache of sequential guest instructions.

use crate::error::SimulatorError;
use crate::memory::{guest_read, Memory, MemoryView, Width};
use crate::tasks::TASK_RETURN_ADDRESS;
use std::collections::HashMap;
use vstd::prelude::*;

verus! {

broadcast use vstd::std_specs::hash::group_hash_axioms;

/// Words of the filter in front of the hooked addresses.
pub const HOOK_FILTER_WORDS: usize = 1_024;

/// Instructions of a cached block at most.
pub const MAX_INSTRUCTION_BLOCK_LEN: usize = 64;

/// Slots of the block cache.
pub const INSTRUCTION_BLOCK_CACHE_SLOTS: usize = 4_096;

/// Word of the filter for an address.
pub open spec fn filter_word(address: u32) -> int {
    (address / 4 % 65_536 / 64) as int
}

/// Bit of the filter word for an address.
pub open spec fn filter_mask(address: u32) -> u64 {
    1u64 << ((address / 4 % 65_536 % 64) as u64)
}

/// Word and bit of the filter for an address.
pub fn hook_filter_location(address: u32) -> (location: (usize, u64))
    ensures
        location.0 == filter_word(address),
        location.1 == filter_mask(address),
        location.0 < HOOK_FILTER_WORDS,
        location.1 != 0,
{
    let bit: u32 = address / 4 % 65_536;
    let shift: u64 = (bit % 64) as u64;
    assert(shift < 64);
    assert(1u64 << shift != 0) by (bit_vector)
        requires
            shift < 64,
    ;
    ((bit / 64) as usize, 1u64 << shift)
}

/// Hooked addresses with the names of their functions.
pub struct HookTable {
    pub names: HashMap<u32, String>,
    pub filter: Vec<u64>,
}

impl HookTable {
    /// The filter passes every hooked address.
    pub open spec fn wf(&self) -> bool {
        &&& self.filter@.len() == HOOK_FILTER_WORDS
        &&& forall|address: u32| #[trigger]
            self.names@.contains_key(address) ==> self.filter@[filter_word(address)] & filter_mask(
                address,
            ) != 0
    }

    /// No hooks.
    pub fn new() -> (table: HookTable)
        ensures
            table.wf(),
            table.names@ == Map::<u32, String>::empty(),
    {
        HookTable { names: HashMap::new(), filter: vec![0u64; HOOK_FILTER_WORDS] }
    }

    /// Hooks an address.
    pub fn insert(&mut self, address: u32, name: String)
        requires
            old(self).wf(),
        ensures
            final(self).wf(),
            final(self).names@ == old(self).names@.insert(address, name),
    {
        let (word, mask) = hook_filter_location(address);
        let held: u64 = self.filter[word];
        self.filter.set(word, held | mask);
        let _ = self.names.insert(address, name);
        proof {
            assert((held | mask) & mask != 0) by (bit_vector)
                requires
                    mask != 0,
            ;
            assert forall|other: u32| #[trigger]
                self.names@.contains_key(other) implies self.filter@[filter_word(other)]
                & filter_mask(other) != 0 by {
                if other != address && filter_word(other) == word {
                    let bit = filter_mask(other);
                    assert(held & bit != 0);
                    assert((held | mask) & bit != 0) by (bit_vector)
                        requires
                            held & bit != 0,
                    ;
                }
            }
        }
    }

    /// The name of the function hooked at an address.
    pub fn hook_at(&self, address: u32) -> (name: Option<&String>)
        requires
            self.wf(),
        ensures
            match name {
                Some(name) => self.names@.contains_key(address) && *name == self.names@[address],
                None => !self.names@.contains_key(address),
            },
    {
        let (word, mask) = hook_filter_location(address);
        if self.filter[word] & mask == 0 {
            return None;
        }
        self.names.get(&address)
    }
}

/// A run of sequential instructions; empty where `len` is zero.
#[derive(Clone, Copy, Debug)]
pub struct CachedInstructionBlock {
    pub start: u32,
    pub len: u8,
    pub instructions: [u32; 64],
}

impl CachedInstructionBlock {
    /// The instructions of the block.
    pub open spec fn code(&self) -> Seq<u32> {
        self.instructions@.take(self.len as int)
    }
}

/// Slot of the block cache for an address.
pub open spec fn block_slot(address: u32) -> int {
    (address / 4 % 4_096) as int
}

/// Slot of the block cache for an address.
pub fn instruction_block_cache_index(address: u32) -> (index: usize)
    ensures
        index == block_slot(address),
        index < INSTRUCTION_BLOCK_CACHE_SLOTS,
{
    (address / 4 % 4_096) as usize
}

/// A cache without blocks.
pub fn empty_instruction_block_cache() -> (blocks: Vec<CachedInstructionBlock>)
    ensures
        blocks@.len() == INSTRUCTION_BLOCK_CACHE_SLOTS,
        forall|i: int|
            0 <= i < INSTRUCTION_BLOCK_CACHE_SLOTS ==> (#[trigger] blocks@[i]).len == 0,
{
    let empty = CachedInstructionBlock { start: 0, len: 0, instructions: [0u32; 64] };
    vec![empty; INSTRUCTION_BLOCK_CACHE_SLOTS]
}

/// Cached blocks and the addresses that they stop at.
pub struct CodeCache {
    pub hooks: HookTable,
    pub blocks: Vec<CachedInstructionBlock>,
    /// Address of the application's main function.
    pub app_main_entry: Option<u32>,
    /// Address of the startup check in it.
    pub app_main_init_check_address: Option<u32>,
}

/// Address of an instruction behind another one.
pub open spec fn address_at(start: u32, index: int) -> u32 {
    start.wrapping_add((index as u32).wrapping_mul(4))
}

impl CodeCache {
    /// The cache has all its slots, and no block is too long.
    pub open spec fn wf(&self) -> bool {
        &&& self.hooks.wf()
        &&& self.blocks@.len() == INSTRUCTION_BLOCK_CACHE_SLOTS
        &&& forall|i: int|
            0 <= i < INSTRUCTION_BLOCK_CACHE_SLOTS ==> (#[trigger] self.blocks@[i]).len
                <= MAX_INSTRUCTION_BLOCK_LEN
    }

    /// Whether a block stops in front of an address.
    pub open spec fn boundary(&self, address: u32) -> bool {
        ||| address == TASK_RETURN_ADDRESS
        ||| Some(address) == self.app_main_entry
        ||| Some(address) == self.app_main_init_check_address
        ||| self.hooks.names@.contains_key(address)
    }

    /// Number of instructions in the block at `start`, from number `index` on.
    pub open spec fn block_end(&self, start: u32, index: int) -> int
        decreases MAX_INSTRUCTION_BLOCK_LEN - index,
    {
        if index >= MAX_INSTRUCTION_BLOCK_LEN || index > 0 && self.boundary(
            address_at(start, index),
        ) {
            index
        } else {
            self.block_end(start, index + 1)
        }
    }

    /// Number of instructions in front of the first one that cannot be fetched.
    pub open spec fn fetchable(memory: MemoryView, start: u32, count: int) -> int
        decreases count,
    {
        if count <= 0 {
            0
        } else {
            let earlier = CodeCache::fetchable(memory, start, count - 1);
            if earlier == count - 1 && guest_read(
                memory,
                address_at(start, count - 1),
                Width::Word,
            ) is Some {
                count
            } else {
                earlier
            }
        }
    }

    /// The instructions at an address.
    pub open spec fn fetched(memory: MemoryView, start: u32, count: nat) -> Seq<u32> {
        Seq::new(count, |i: int| guest_read(memory, address_at(start, i), Width::Word)->0)
    }

    /// Whether the cache holds the block that starts at an address.
    pub open spec fn holds(&self, start: u32) -> bool {
        self.blocks@[block_slot(start)].len != 0 && self.blocks@[block_slot(start)].start == start
    }

    /// Whether a block stops in front of an address.
    pub fn is_instruction_block_boundary(&self, address: u32) -> (result: bool)
        requires
            self.wf(),
        ensures
            result == self.boundary(address),
    {
        if address == TASK_RETURN_ADDRESS {
            return true;
        }
        if let Some(entry) = self.app_main_entry {
            if entry == address {
                return true;
            }
        }
        if let Some(check) = self.app_main_init_check_address {
            if check == address {
                return true;
            }
        }
        self.hooks.hook_at(address).is_some()
    }

    /// Makes sure that the cache holds the block at an address.
    pub fn ensure_instruction_block(&mut self, memory: &Memory, start: u32) -> (result: Result<
        (),
        SimulatorError,
    >)
        requires
            old(self).wf(),
        ensures
            final(self).wf(),
            final(self).hooks == old(self).hooks,
            final(self).app_main_entry == old(self).app_main_entry,
            final(self).app_main_init_check_address == old(self).app_main_init_check_address,
            ({
                let count = old(self).block_end(start, 0);
                let available = CodeCache::fetchable(memory@, start, count);
                if old(self).holds(start) {
                    &&& result is Ok
                    &&& final(self).blocks@ == old(self).blocks@
                } else if available < count {
                    &&& result == Err::<(), SimulatorError>(
                        SimulatorError::UnmappedAddress { address: address_at(start, available) },
                    )
                    &&& final(self).blocks@ == old(self).blocks@
                } else {
                    let block = final(self).blocks@[block_slot(start)];
                    &&& result is Ok
                    &&& final(self).holds(start)
                    &&& final(self).blocks@ == old(self).blocks@.update(block_slot(start), block)
                    &&& block.len == count
                    &&& block.code() == CodeCache::fetched(memory@, start, count as nat)
                }
            }),
    {
        let slot: usize = instruction_block_cache_index(start);
        if self.blocks[slot].len != 0 && self.blocks[slot].start == start {
            return Ok(());
        }
        let mut instructions: [u32; 64] = [0u32; 64];
        let mut count: usize = 0;
        let mut address: u32 = start;
        assert(address_at(start, 0) == start);
        while count < MAX_INSTRUCTION_BLOCK_LEN
            invariant_except_break
                self.block_end(start, 0) == self.block_end(start, count as int),
            invariant
                *self == *old(self),
                self.wf(),
                !self.holds(start),
                count <= MAX_INSTRUCTION_BLOCK_LEN,
                address == address_at(start, count as int),
                instructions@.len() == 64,
                CodeCache::fetchable(memory@, start, count as int) == count,
                forall|i: int|
                    0 <= i < count ==> #[trigger] instructions@[i] == guest_read(
                        memory@,
                        address_at(start, i),
                        Width::Word,
                    )->0,
            ensures
                self.block_end(start, 0) == count,
            decreases MAX_INSTRUCTION_BLOCK_LEN - count,
        {
            if count > 0 && self.is_instruction_block_boundary(address) {
                break;
            }
            match memory.fetch_instruction(address) {
                Ok(instruction) => {
                    instructions[count] = instruction;
                },
                Err(error) => {
                    proof {
                        lemma_block_end_grows(*self, start, count as int);
                        lemma_fetch_stops(
                            memory@,
                            start,
                            count as int,
                            self.block_end(start, 0),
                        );
                    }
                    return Err(error);
                },
            }
            count = count + 1;
            address = address.wrapping_add(4);
        }
        proof {
            lemma_block_end_positive(*self, start);
        }
        let block = CachedInstructionBlock { start, len: count as u8, instructions };
        self.blocks.set(slot, block);
        assert(block.code() =~= CodeCache::fetched(memory@, start, count as nat));
        Ok(())
    }

    /// Forgets every block.
    pub fn clear_blocks(&mut self)
        requires
            old(self).wf(),
        ensures
            final(self).wf(),
            final(self).hooks == old(self).hooks,
            final(self).app_main_entry == old(self).app_main_entry,
            final(self).app_main_init_check_address == old(self).app_main_init_check_address,
            forall|i: int|
                0 <= i < INSTRUCTION_BLOCK_CACHE_SLOTS ==> (#[trigger] final(self).blocks@[i]).len
                    == 0,
    {
        self.blocks = empty_instruction_block_cache();
    }
}

proof fn lemma_block_end_grows(cache: CodeCache, start: u32, index: int)
    requires
        0 <= index < MAX_INSTRUCTION_BLOCK_LEN,
        !(index > 0 && cache.boundary(address_at(start, index))),
    ensures
        cache.block_end(start, index) > index,
        cache.block_end(start, index) <= MAX_INSTRUCTION_BLOCK_LEN,
    decreases MAX_INSTRUCTION_BLOCK_LEN - index,
{
    reveal_with_fuel(CodeCache::block_end, 2);
    if index + 1 < MAX_INSTRUCTION_BLOCK_LEN && !cache.boundary(address_at(start, index + 1)) {
        lemma_block_end_grows(cache, start, index + 1);
    }
}

proof fn lemma_block_end_positive(cache: CodeCache, start: u32)
    ensures
        0 < cache.block_end(start, 0) <= MAX_INSTRUCTION_BLOCK_LEN,
{
    lemma_block_end_grows(cache, start, 0);
}

proof fn lemma_fetch_stops(memory: MemoryView, start: u32, stop: int, count: int)
    requires
        0 <= stop < count,
        CodeCache::fetchable(memory, start, stop) == stop,
        guest_read(memory, address_at(start, stop), Width::Word) is None,
    ensures
        CodeCache::fetchable(memory, start, count) == stop,
    decreases count,
{
    if count > stop + 1 {
        lemma_fetch_stops(memory, start, stop, count - 1);
    }
}

/// A block covers no hooked address and no startup address but, possibly, its
/// first one.
pub proof fn law_blocks_stop_before_hooks(cache: CodeCache, start: u32, index: int)
    requires
        0 < index < cache.block_end(start, 0),
    ensures
        !cache.boundary(address_at(start, index)),
{
    lemma_inside_block(cache, start, 0, index);
}

proof fn lemma_inside_block(cache: CodeCache, start: u32, from: int, index: int)
    requires
        0 <= from <= index < cache.block_end(start, from),
    ensures
        index > 0 ==> !cache.boundary(address_at(start, index)),
    decreases index - from,
{
    if from < index {
        lemma_inside_block(cache, start, from + 1, index);
    }
}

} // verus!
