//! What loads and stores move.

use crate::cpu::{interpret, CpuState, Interpreted, UnknownInstructionPolicy};
use crate::isa::{
    control_flow, effective_address, loaded_value, memory_effect, memory_instruction, stored_value,
    Machine, REGISTER_COUNT,
};
use crate::jit::block::{block_exit, pc_at, straight, straight_end, straight_progress};
use crate::jit::ir::BlockExit;
use crate::jit::lower::Progress;
use crate::laws::places::{
    byte_in, cell, law_reads_are_little_endian, law_writes_are_little_endian, lemma_together,
    little_endian, same_besides, spot, together,
};
use crate::laws::registers::{
    is_immediate_form, leaves, lemma_immediate_form, put, signed, signed_half, value,
};
use crate::memory::{MemoryView, Width};
use vstd::prelude::*;

verus! {

/// Whether an instruction leaves these registers and this memory: run by the
/// interpreter, which goes on behind it or at the target of a branch in front of it,
/// and as a compiled block of its own.
pub open spec fn moves(
    state: CpuState,
    memory: MemoryView,
    policy: UnknownInstructionPolicy,
    instruction: u32,
    after: Seq<u32>,
    contents: MemoryView,
) -> bool {
    let behind = ((state.pc + 4) % 0x1_0000_0000) as u32;
    &&& interpret(state, memory, instruction, policy) == Interpreted::Done(
        CpuState {
            regs: after,
            pc: match state.delayed {
                Some(target) => target,
                None => behind,
            },
            delayed: None,
        },
        contents,
    )
    &&& block_exit(state.pc, seq![instruction], Machine { regs: state.regs, memory }) == (
    BlockExit { regs: after, pc: behind, memory: contents, completed: 1 })
}

/// The address that a load or store names.
pub open spec fn named_address(state: CpuState, rs: u32, immediate: u32) -> int {
    (value(state.regs, rs as int) + signed_half(immediate)) % 0x1_0000_0000
}

/// Bytes that a load or store of whole values moves.
pub open spec fn moved(opcode: u32) -> int {
    if opcode == 0x20 || opcode == 0x24 || opcode == 0x28 {
        1
    } else if opcode == 0x21 || opcode == 0x25 || opcode == 0x29 {
        2
    } else {
        4
    }
}

proof fn lemma_moves(
    state: CpuState,
    memory: MemoryView,
    policy: UnknownInstructionPolicy,
    instruction: u32,
)
    requires
        memory_instruction(instruction),
        !control_flow(instruction),
        crate::isa::natively_served(state.regs, instruction),
    ensures
        ({
            let done = memory_effect(Machine { regs: state.regs, memory }, instruction);
            &&& done is Some
            &&& moves(state, memory, policy, instruction, done->0.regs, done->0.memory)
        }),
{
    let code = seq![instruction];
    let machine = Machine { regs: state.regs, memory };
    assert(code[0] == instruction);
    assert(straight(code[0]));
    assert(straight_end(code, 1) == 1);
    assert(straight_end(code, 0) == 1);
    assert(straight_progress(state.pc, code, 0, machine) == Progress::Inside(machine));
    assert(pc_at(state.pc, 1) == ((state.pc + 4) % 0x1_0000_0000) as u32);
}

proof fn lemma_named(
    state: CpuState,
    instruction: u32,
    opcode: u32,
    rs: u32,
    rt: u32,
    immediate: u32,
)
    requires
        is_immediate_form(instruction, opcode, rs, rt, immediate),
    ensures
        effective_address(state.regs, instruction) == named_address(state, rs, immediate),
{
    lemma_immediate_form(instruction, opcode, rs, rt, immediate);
}

/// Loads of whole values: the register holds the bytes from the address on, the least
/// significant first, with the sign of the last one where the load keeps it.
pub proof fn law_loads(
    state: CpuState,
    memory: MemoryView,
    policy: UnknownInstructionPolicy,
    instruction: u32,
    opcode: u32,
    rs: u32,
    rt: u32,
    immediate: u32,
)
    requires
        state.regs.len() == REGISTER_COUNT,
        memory.sized(),
        is_immediate_form(instruction, opcode, rs, rt, immediate),
        opcode == 0x20 || opcode == 0x21 || opcode == 0x23 || opcode == 0x24 || opcode == 0x25
            || opcode == 0x30,
        together(named_address(state, rs, immediate), moved(opcode)),
    ensures
        exists|after: Seq<u32>, word: u32|
            {
                let number = little_endian(
                    memory,
                    spot(named_address(state, rs, immediate))->0,
                    moved(opcode),
                );
                &&& #[trigger] moves(state, memory, policy, instruction, after, memory)
                &&& #[trigger] put(state.regs, after, rt as int, word)
                &&& if opcode == 0x20 {
                    signed(word) == if number < 0x80 {
                        number
                    } else {
                        number - 0x100
                    }
                } else if opcode == 0x21 {
                    signed(word) == if number < 0x8000 {
                        number
                    } else {
                        number - 0x1_0000
                    }
                } else {
                    word == number
                }
            },
{
    lemma_immediate_form(instruction, opcode, rs, rt, immediate);
    lemma_named(state, instruction, opcode, rs, rt, immediate);
    let address = named_address(state, rs, immediate) as u32;
    let width = crate::isa::access_width(instruction);
    assert(width.size() == moved(opcode));
    lemma_together(address, width);
    law_reads_are_little_endian(memory, address, width);
    lemma_moves(state, memory, policy, instruction);
    let held = little_endian(memory, spot(address as int)->0, moved(opcode)) as u32;
    reveal_with_fuel(little_endian, 5);
    let done = memory_effect(Machine { regs: state.regs, memory }, instruction)->0;
    let current = value(state.regs, rt as int);
    let word = loaded_value(instruction, held, current, address);
    if opcode == 0x20 || opcode == 0x21 {
        lemma_sign_extension(held);
    }
    assert(put(state.regs, done.regs, rt as int, word));
}

/// Stores of whole values: the bytes from the address on are those of the register, the
/// least significant first, and no other byte changes. The conditional one reports
/// success.
pub proof fn law_stores(
    state: CpuState,
    memory: MemoryView,
    policy: UnknownInstructionPolicy,
    instruction: u32,
    opcode: u32,
    rs: u32,
    rt: u32,
    immediate: u32,
)
    requires
        state.regs.len() == REGISTER_COUNT,
        memory.sized(),
        is_immediate_form(instruction, opcode, rs, rt, immediate),
        opcode == 0x28 || opcode == 0x29 || opcode == 0x2b || opcode == 0x38,
        together(named_address(state, rs, immediate), moved(opcode)),
    ensures
        exists|after: Seq<u32>, contents: MemoryView|
            {
                let first = spot(named_address(state, rs, immediate))->0;
                &&& #[trigger] moves(state, memory, policy, instruction, after, contents)
                &&& same_besides(memory, contents, first, moved(opcode))
                &&& forall|i: int|
                    0 <= i < moved(opcode) ==> #[trigger] cell(contents, (first.0, first.1 + i))
                        == byte_in(value(state.regs, rt as int), i)
                &&& if opcode == 0x38 {
                    put(state.regs, after, rt as int, 1)
                } else {
                    after == state.regs
                }
            },
{
    lemma_immediate_form(instruction, opcode, rs, rt, immediate);
    lemma_named(state, instruction, opcode, rs, rt, immediate);
    let address = named_address(state, rs, immediate) as u32;
    let width = crate::isa::access_width(instruction);
    assert(width.size() == moved(opcode));
    lemma_together(address, width);
    law_writes_are_little_endian(memory, address, width, value(state.regs, rt as int));
    lemma_moves(state, memory, policy, instruction);
    let done = memory_effect(Machine { regs: state.regs, memory }, instruction)->0;
    if opcode == 0x38 {
        assert(put(state.regs, done.regs, rt as int, 1));
    }
}

proof fn lemma_lane(address: u32)
    by (bit_vector)
    ensures
        address & 3 == address % 4,
        address & 0xffff_fffc == address - address % 4,
{
}

/// Loads of the part of a word on one side of an address. The left one fills the upper
/// bytes of the register with those from the start of the word up to the address; the
/// right one fills the lower bytes with those from the address up to the end of the word.
/// The other bytes of the register stay.
#[verifier::rlimit(60)]
#[verifier::spinoff_prover]
pub proof fn law_partial_loads(
    state: CpuState,
    memory: MemoryView,
    policy: UnknownInstructionPolicy,
    instruction: u32,
    opcode: u32,
    rs: u32,
    rt: u32,
    immediate: u32,
)
    requires
        state.regs.len() == REGISTER_COUNT,
        memory.sized(),
        is_immediate_form(instruction, opcode, rs, rt, immediate),
        opcode == 0x22 || opcode == 0x26,
        ({
            let address = named_address(state, rs, immediate);
            together(address - address % 4, 4)
        }),
    ensures
        exists|after: Seq<u32>, word: u32|
            {
                let address = named_address(state, rs, immediate);
                let lane = address % 4;
                let first = spot(address - lane)->0;
                &&& #[trigger] moves(state, memory, policy, instruction, after, memory)
                &&& #[trigger] put(state.regs, after, rt as int, word)
                &&& forall|k: int|
                    0 <= k < 4 ==> #[trigger] byte_in(word, k) == if opcode == 0x22 {
                        if k >= 3 - lane {
                            cell(memory, (first.0, first.1 + k - (3 - lane))) as int
                        } else {
                            byte_in(value(state.regs, rt as int), k)
                        }
                    } else if k <= 3 - lane {
                        cell(memory, (first.0, first.1 + lane + k)) as int
                    } else {
                        byte_in(value(state.regs, rt as int), k)
                    }
            },
{
    lemma_immediate_form(instruction, opcode, rs, rt, immediate);
    lemma_named(state, instruction, opcode, rs, rt, immediate);
    let address = named_address(state, rs, immediate) as u32;
    lemma_lane(address);
    let access = (address - address % 4) as u32;
    lemma_together(access, Width::Word);
    law_reads_are_little_endian(memory, access, Width::Word);
    lemma_moves(state, memory, policy, instruction);
    reveal_with_fuel(little_endian, 5);
    let first = spot(access as int)->0;
    let held = little_endian(memory, first, 4) as u32;
    let done = memory_effect(Machine { regs: state.regs, memory }, instruction)->0;
    let current = value(state.regs, rt as int);
    let word = loaded_value(instruction, held, current, address);
    assert(put(state.regs, done.regs, rt as int, word));
    lemma_merged(held, current);
    lemma_cells(memory, first, held);
}

proof fn lemma_cells(memory: MemoryView, first: (bool, int), held: u32)
    requires
        held == little_endian(memory, first, 4),
    ensures
        forall|k: int|
            0 <= k < 4 ==> #[trigger] byte_in(held, k) == cell(memory, (first.0, first.1 + k)),
        byte_in(held, 0) == cell(memory, (first.0, first.1)),
        byte_in(held, 1) == cell(memory, (first.0, first.1 + 1)),
        byte_in(held, 2) == cell(memory, (first.0, first.1 + 2)),
        byte_in(held, 3) == cell(memory, (first.0, first.1 + 3)),
{
    reveal_with_fuel(little_endian, 5);
    assert((first.0, first.1 + 0) == first);
}

/// What shifting a word by bytes and masking another one does to bytes.
proof fn lemma_merged(m: u32, c: u32)
    by (bit_vector)
    ensures
        ((m << 24) | (c & 0x00ff_ffff)) / 0x1 % 0x100 == c / 0x1 % 0x100,
        ((m << 24) | (c & 0x00ff_ffff)) / 0x100 % 0x100 == c / 0x100 % 0x100,
        ((m << 24) | (c & 0x00ff_ffff)) / 0x10000 % 0x100 == c / 0x10000 % 0x100,
        ((m << 24) | (c & 0x00ff_ffff)) / 0x1000000 % 0x100 == m / 0x1 % 0x100,
        ((m << 16) | (c & 0x0000_ffff)) / 0x1 % 0x100 == c / 0x1 % 0x100,
        ((m << 16) | (c & 0x0000_ffff)) / 0x100 % 0x100 == c / 0x100 % 0x100,
        ((m << 16) | (c & 0x0000_ffff)) / 0x10000 % 0x100 == m / 0x1 % 0x100,
        ((m << 16) | (c & 0x0000_ffff)) / 0x1000000 % 0x100 == m / 0x100 % 0x100,
        ((m << 8) | (c & 0x0000_00ff)) / 0x1 % 0x100 == c / 0x1 % 0x100,
        ((m << 8) | (c & 0x0000_00ff)) / 0x100 % 0x100 == m / 0x1 % 0x100,
        ((m << 8) | (c & 0x0000_00ff)) / 0x10000 % 0x100 == m / 0x100 % 0x100,
        ((m << 8) | (c & 0x0000_00ff)) / 0x1000000 % 0x100 == m / 0x10000 % 0x100,
        ((m >> 8) | (c & 0xff00_0000)) / 0x1 % 0x100 == m / 0x100 % 0x100,
        ((m >> 8) | (c & 0xff00_0000)) / 0x100 % 0x100 == m / 0x10000 % 0x100,
        ((m >> 8) | (c & 0xff00_0000)) / 0x10000 % 0x100 == m / 0x1000000 % 0x100,
        ((m >> 8) | (c & 0xff00_0000)) / 0x1000000 % 0x100 == c / 0x1000000 % 0x100,
        ((m >> 16) | (c & 0xffff_0000)) / 0x1 % 0x100 == m / 0x10000 % 0x100,
        ((m >> 16) | (c & 0xffff_0000)) / 0x100 % 0x100 == m / 0x1000000 % 0x100,
        ((m >> 16) | (c & 0xffff_0000)) / 0x10000 % 0x100 == c / 0x10000 % 0x100,
        ((m >> 16) | (c & 0xffff_0000)) / 0x1000000 % 0x100 == c / 0x1000000 % 0x100,
        ((m >> 24) | (c & 0xffff_ff00)) / 0x1 % 0x100 == m / 0x1000000 % 0x100,
        ((m >> 24) | (c & 0xffff_ff00)) / 0x100 % 0x100 == c / 0x100 % 0x100,
        ((m >> 24) | (c & 0xffff_ff00)) / 0x10000 % 0x100 == c / 0x10000 % 0x100,
        ((m >> 24) | (c & 0xffff_ff00)) / 0x1000000 % 0x100 == c / 0x1000000 % 0x100,
        (c & 0x00ff_ffff) | (m << 24) == (m << 24) | (c & 0x00ff_ffff),
        (c & 0x0000_ffff) | (m << 16) == (m << 16) | (c & 0x0000_ffff),
        (c & 0x0000_00ff) | (m << 8) == (m << 8) | (c & 0x0000_00ff),
        (c & 0xff00_0000) | (m >> 8) == (m >> 8) | (c & 0xff00_0000),
        (c & 0xffff_0000) | (m >> 16) == (m >> 16) | (c & 0xffff_0000),
        (c & 0xffff_ff00) | (m >> 24) == (m >> 24) | (c & 0xffff_ff00),
{
}

proof fn lemma_sign_extension(held: u32)
    by (bit_vector)
    ensures
        held < 0x100 ==> held as u8 as i8 as i32 as u32 == if held < 0x80 {
            held as int
        } else {
            held + 0xffff_ff00
        },
        held < 0x1_0000 ==> held as u16 as i16 as i32 as u32 == if held < 0x8000 {
            held as int
        } else {
            held + 0xffff_0000
        },
{
}

/// Stores of the part of a word on one side of an address. The left one puts the upper
/// bytes of the register from the start of the word up to the address; the right one
/// puts the lower bytes from the address up to the end of the word. No other byte
/// changes.
#[verifier::rlimit(60)]
#[verifier::spinoff_prover]
pub proof fn law_partial_stores(
    state: CpuState,
    memory: MemoryView,
    policy: UnknownInstructionPolicy,
    instruction: u32,
    opcode: u32,
    rs: u32,
    rt: u32,
    immediate: u32,
)
    requires
        state.regs.len() == REGISTER_COUNT,
        memory.sized(),
        is_immediate_form(instruction, opcode, rs, rt, immediate),
        opcode == 0x2a || opcode == 0x2e,
        ({
            let address = named_address(state, rs, immediate);
            together(address - address % 4, 4)
        }),
    ensures
        exists|contents: MemoryView|
            {
                let address = named_address(state, rs, immediate);
                let lane = address % 4;
                let first = spot(address - lane)->0;
                let word = value(state.regs, rt as int);
                &&& #[trigger] moves(state, memory, policy, instruction, state.regs, contents)
                &&& same_besides(memory, contents, first, 4)
                &&& forall|k: int|
                    0 <= k < 4 ==> #[trigger] cell(contents, (first.0, first.1 + k)) == if opcode
                        == 0x2a {
                        if k <= lane {
                            byte_in(word, k + 3 - lane)
                        } else {
                            cell(memory, (first.0, first.1 + k)) as int
                        }
                    } else if k >= lane {
                        byte_in(word, k - lane)
                    } else {
                        cell(memory, (first.0, first.1 + k)) as int
                    }
            },
{
    lemma_immediate_form(instruction, opcode, rs, rt, immediate);
    lemma_named(state, instruction, opcode, rs, rt, immediate);
    let address = named_address(state, rs, immediate) as u32;
    lemma_lane(address);
    let access = (address - address % 4) as u32;
    lemma_together(access, Width::Word);
    law_reads_are_little_endian(memory, access, Width::Word);
    lemma_moves(state, memory, policy, instruction);
    let first = spot(access as int)->0;
    let held = little_endian(memory, first, 4) as u32;
    let word = value(state.regs, rt as int);
    let merged = stored_value(instruction, held, word, address);
    law_writes_are_little_endian(memory, access, Width::Word, merged);
    lemma_cells(memory, first, held);
    lemma_merged(word, held);
    let done = memory_effect(Machine { regs: state.regs, memory }, instruction)->0;
    assert(moves(state, memory, policy, instruction, state.regs, done.memory));
    assert forall|k: int| 0 <= k < 4 implies #[trigger] cell(
        done.memory,
        (first.0, first.1 + k),
    ) == byte_in(merged, k) && byte_in(held, k) == cell(memory, (first.0, first.1 + k)) by {}
}

/// An access that leads nowhere is reported with its address, and changes nothing.
pub proof fn law_accesses_that_lead_nowhere(
    state: CpuState,
    memory: MemoryView,
    policy: UnknownInstructionPolicy,
    instruction: u32,
    opcode: u32,
    rs: u32,
    rt: u32,
    immediate: u32,
)
    requires
        is_immediate_form(instruction, opcode, rs, rt, immediate),
        opcode == 0x20 || opcode == 0x24 || opcode == 0x28,
        spot(named_address(state, rs, immediate)) is None,
        !crate::laws::places::device(named_address(state, rs, immediate)),
    ensures
        interpret(state, memory, instruction, policy) == Interpreted::Unmapped(
            named_address(state, rs, immediate) as u32,
        ),
{
    lemma_immediate_form(instruction, opcode, rs, rt, immediate);
    lemma_named(state, instruction, opcode, rs, rt, immediate);
    crate::laws::places::law_devices_and_gaps(
        memory,
        named_address(state, rs, immediate) as u32,
        0,
    );
}

/// An instruction that is not implemented is skipped or reported, as was chosen.
pub proof fn law_unknown_instructions(
    state: CpuState,
    memory: MemoryView,
    policy: UnknownInstructionPolicy,
    instruction: u32,
)
    requires
        ({
            let opcode = instruction / 0x400_0000;
            ||| 0x10 <= opcode <= 0x1b
            ||| 0x1d <= opcode <= 0x1f
            ||| opcode == 0x27
            ||| opcode == 0x2c
            ||| opcode == 0x2d
            ||| opcode == 0x2f
            ||| opcode == 0x31
            ||| opcode == 0x32
            ||| 0x34 <= opcode <= 0x37
            ||| 0x39 <= opcode
        }),
    ensures
        interpret(state, memory, instruction, policy) == match policy {
            UnknownInstructionPolicy::Skip => Interpreted::Done(
                CpuState {
                    pc: match state.delayed {
                        Some(target) => target,
                        None => ((state.pc + 4) % 0x1_0000_0000) as u32,
                    },
                    delayed: None,
                    ..state
                },
                memory,
            ),
            UnknownInstructionPolicy::Stop => Interpreted::Unknown,
        },
{
    assert(instruction >> 26 == instruction / 0x400_0000) by (bit_vector);
}

} // verus!
