//! Where branches and jumps lead.

use crate::cpu::{interpret, CpuState, Interpreted, UnknownInstructionPolicy};
use crate::isa::{
    branch_registers, branch_taken, branch_target, control_flow, delay_instruction, register_effect,
    register_instruction, signed_immediate, supported_branch, Machine, REGISTER_COUNT,
};
use crate::jit::block::{
    block_exit, ends_in_branch, pc_at, straight, straight_end, straight_progress,
};
use crate::jit::ir::BlockExit;
use crate::jit::lower::Progress;
use crate::laws::registers::{
    is_immediate_form, is_register_form, lemma_immediate_form, lemma_register_form, lemma_signed,
    put, signed, signed_half, value,
};
use crate::memory::MemoryView;
use vstd::prelude::*;

verus! {

/// Whether a branch leaves these registers and leads to a target behind its delay slot:
/// run by the interpreter, and as a compiled block with an empty delay slot.
pub open spec fn branches(
    state: CpuState,
    memory: MemoryView,
    policy: UnknownInstructionPolicy,
    instruction: u32,
    after: Seq<u32>,
    target: u32,
) -> bool {
    &&& interpret(state, memory, instruction, policy) == Interpreted::Done(
        CpuState {
            regs: after,
            pc: match state.delayed {
                Some(target) => target,
                None => ((state.pc + 4) % 0x1_0000_0000) as u32,
            },
            delayed: Some(target),
        },
        memory,
    )
    &&& block_exit(state.pc, seq![instruction, 0], Machine { regs: state.regs, memory }) == (
    BlockExit { regs: after, pc: target, memory, completed: 2 })
}

proof fn lemma_empty_slot()
    ensures
        !control_flow(0),
        register_instruction(0),
        !crate::isa::memory_instruction(0),
        delay_instruction(0),
{
    assert(0u32 >> 26 == 0 && 0u32 & 0x3f == 0) by (bit_vector);
}

proof fn lemma_branches(
    state: CpuState,
    memory: MemoryView,
    policy: UnknownInstructionPolicy,
    instruction: u32,
)
    requires
        control_flow(instruction),
        supported_branch(instruction),
    ensures
        branches(
            state,
            memory,
            policy,
            instruction,
            branch_registers(state.regs, instruction, state.pc),
            branch_target(state.regs, instruction, state.pc),
        ),
{
    let code = seq![instruction, 0];
    let machine = Machine { regs: state.regs, memory };
    lemma_empty_slot();
    assert(code[0] == instruction && code[1] == 0);
    assert(!straight(code[0]));
    assert(straight_end(code, 0) == 0);
    assert(straight_progress(state.pc, code, 0, machine) == Progress::Inside(machine));
    assert(ends_in_branch(code));
    assert(pc_at(state.pc, 0) == state.pc);
    let linked = branch_registers(state.regs, instruction, state.pc);
    assert(register_effect(linked, 0) == linked);
}

/// Jumps to a register lead to the address in it. The linking one keeps the address
/// behind its delay slot.
pub proof fn law_jumps_to_a_register(
    state: CpuState,
    memory: MemoryView,
    policy: UnknownInstructionPolicy,
    instruction: u32,
    rs: u32,
    rt: u32,
    rd: u32,
    shift: u32,
    funct: u32,
)
    requires
        state.regs.len() == REGISTER_COUNT,
        is_register_form(instruction, 0, rs, rt, rd, shift, funct),
        funct == 0x08 || funct == 0x09,
    ensures
        exists|after: Seq<u32>|
            {
                &&& #[trigger] branches(
                    state,
                    memory,
                    policy,
                    instruction,
                    after,
                    value(state.regs, rs as int),
                )
                &&& if funct == 0x09 {
                    put(
                        state.regs,
                        after,
                        rd as int,
                        ((state.pc + 8) % 0x1_0000_0000) as u32,
                    )
                } else {
                    after == state.regs
                }
            },
{
    lemma_register_form(instruction, 0, rs, rt, rd, shift, funct);
    lemma_branches(state, memory, policy, instruction);
    let after = branch_registers(state.regs, instruction, state.pc);
    assert(branch_target(state.regs, instruction, state.pc) == value(state.regs, rs as int));
    assert(branches(state, memory, policy, instruction, after, value(state.regs, rs as int)));
    if funct == 0x09 {
        assert(put(state.regs, after, rd as int, ((state.pc + 8) % 0x1_0000_0000) as u32));
    }
}

/// Jumps inside a region lead to the instruction with a number in the region of the
/// jump. The linking one keeps the address behind its delay slot.
pub proof fn law_jumps_inside_a_region(
    state: CpuState,
    memory: MemoryView,
    policy: UnknownInstructionPolicy,
    instruction: u32,
    opcode: u32,
    index: u32,
)
    requires
        state.regs.len() == REGISTER_COUNT,
        opcode == 2 || opcode == 3,
        index < 0x400_0000,
        instruction == opcode * 0x400_0000 + index,
    ensures
        exists|after: Seq<u32>, target: u32|
            {
                &&& #[trigger] branches(state, memory, policy, instruction, after, target)
                &&& target / 0x1000_0000 == state.pc / 0x1000_0000
                &&& target % 0x1000_0000 == 4 * index
                &&& if opcode == 3 {
                    put(state.regs, after, 31, ((state.pc + 8) % 0x1_0000_0000) as u32)
                } else {
                    after == state.regs
                }
            },
{
    let pc = state.pc;
    let target = (pc & 0xf000_0000) | (index << 2);
    assert(instruction >> 26 == opcode && instruction & 0x03ff_ffff == index && target
        / 0x1000_0000 == pc / 0x1000_0000 && target % 0x1000_0000 == 4 * index) by (bit_vector)
        requires
            opcode == 2 || opcode == 3,
            index < 0x400_0000,
            instruction == opcode * 0x400_0000 + index,
            target == (pc & 0xf000_0000) | (index << 2),
    ;
    lemma_branches(state, memory, policy, instruction);
    let after = branch_registers(state.regs, instruction, pc);
    assert(branches(state, memory, policy, instruction, after, target));
    if opcode == 3 {
        assert(put(state.regs, after, 31, ((pc + 8) % 0x1_0000_0000) as u32));
    }
}

/// Whether a conditional branch is taken, by the numbers in its operands.
pub open spec fn taken(opcode: u32, kind: u32, left: u32, right: u32) -> bool {
    if opcode == 4 {
        left == right
    } else if opcode == 5 {
        left != right
    } else if opcode == 6 {
        signed(left) <= 0
    } else if opcode == 7 {
        signed(left) > 0
    } else if kind % 2 == 0 {
        signed(left) < 0
    } else {
        signed(left) >= 0
    }
}

/// Conditional branches lead so many instructions further than their delay slot where
/// their condition holds, and behind it elsewhere. The linking ones keep the address
/// behind it, whatever their condition, which is asked afterwards.
pub proof fn law_conditional_branches(
    state: CpuState,
    memory: MemoryView,
    policy: UnknownInstructionPolicy,
    instruction: u32,
    opcode: u32,
    rs: u32,
    rt: u32,
    immediate: u32,
)
    requires
        state.regs.len() == REGISTER_COUNT,
        is_immediate_form(instruction, opcode, rs, rt, immediate),
        4 <= opcode <= 7 || opcode == 1 && (rt <= 1 || rt == 0x10 || rt == 0x11),
    ensures
        exists|after: Seq<u32>, target: u32|
            {
                let behind = ((state.pc + 8) % 0x1_0000_0000) as u32;
                let links = opcode == 1 && rt >= 0x10;
                &&& #[trigger] branches(state, memory, policy, instruction, after, target)
                &&& if links {
                    put(state.regs, after, 31, behind)
                } else {
                    after == state.regs
                }
                &&& target == if taken(
                    opcode,
                    rt,
                    value(after, rs as int),
                    value(after, rt as int),
                ) {
                    (state.pc + 4 + 4 * signed_half(immediate)) % 0x1_0000_0000
                } else {
                    behind as int
                }
            },
{
    lemma_immediate_form(instruction, opcode, rs, rt, immediate);
    lemma_branches(state, memory, policy, instruction);
    let after = branch_registers(state.regs, instruction, state.pc);
    let target = branch_target(state.regs, instruction, state.pc);
    lemma_taken(after, instruction, opcode, rs, rt, immediate);
    lemma_relative(state.pc, signed_immediate(instruction), immediate);
    assert(branches(state, memory, policy, instruction, after, target));
    if opcode == 1 && rt >= 0x10 {
        assert(put(state.regs, after, 31, ((state.pc + 8) % 0x1_0000_0000) as u32));
    } else {
        assert(after == state.regs);
    }
}

proof fn lemma_relative(pc: u32, offset: u32, immediate: u32)
    requires
        immediate < 0x1_0000,
        offset == if immediate < 0x8000 {
            immediate as int
        } else {
            immediate + 0xffff_0000
        },
    ensures
        pc.wrapping_add(4).wrapping_add(offset << 2) == (pc + 4 + 4 * signed_half(immediate))
            % 0x1_0000_0000,
{
    assert(offset << 2 == (4 * offset) % 0x1_0000_0000) by (bit_vector);
}

proof fn lemma_taken(
    regs: Seq<u32>,
    instruction: u32,
    opcode: u32,
    rs: u32,
    rt: u32,
    immediate: u32,
)
    requires
        is_immediate_form(instruction, opcode, rs, rt, immediate),
        4 <= opcode <= 7 || opcode == 1 && (rt <= 1 || rt == 0x10 || rt == 0x11),
    ensures
        branch_taken(regs, instruction) == taken(
            opcode,
            rt,
            value(regs, rs as int),
            value(regs, rt as int),
        ),
{
    lemma_immediate_form(instruction, opcode, rs, rt, immediate);
    let left = value(regs, rs as int);
    lemma_signed(left);
    lemma_signed(0);
}

} // verus!
