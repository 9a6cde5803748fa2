//! What register instructions compute.
//!
//! An instruction is given by the numbers in its fields, a result by the arithmetic
//! that it satisfies. Each law holds of the interpreter and of a compiled block alike.

use crate::cpu::{interpret, CpuState, Interpreted, UnknownInstructionPolicy};
use crate::isa::{
    control_flow, funct_of, memory_instruction, opcode_of, rd_of, register_effect,
    register_instruction, rs_of, rt_of, shamt_of, signed_immediate, unsigned_immediate, Machine,
    REGISTER_COUNT,
};
use crate::jit::block::{block_exit, pc_at, straight, straight_end, straight_progress};
use crate::jit::ir::BlockExit;
use crate::jit::lower::Progress;
use crate::memory::MemoryView;
use vstd::prelude::*;

verus! {

/// A word as a number with a sign.
pub open spec fn signed(word: u32) -> int {
    if word < 0x8000_0000 {
        word as int
    } else {
        word - 0x1_0000_0000
    }
}

/// A bit of a word, counted from the least significant.
pub open spec fn bit(word: u32, position: u32) -> u32 {
    (word >> position) & 1
}

/// What a register reads as.
pub open spec fn value(regs: Seq<u32>, register: int) -> u32 {
    if register == 0 {
        0
    } else {
        regs[register]
    }
}

/// Whether a value was put into a register, and no other one changed. Register zero
/// takes none.
pub open spec fn put(before: Seq<u32>, after: Seq<u32>, register: int, word: u32) -> bool {
    &&& after.len() == before.len()
    &&& register != 0 ==> after[register] == word
    &&& forall|other: int|
        0 <= other < before.len() && (other != register || register == 0)
            ==> #[trigger] after[other] == before[other]
}

/// Whether HI and LO were set, and no other register changed.
pub open spec fn put_pair(before: Seq<u32>, after: Seq<u32>, hi: u32, lo: u32) -> bool {
    &&& after.len() == before.len()
    &&& after[32] == hi
    &&& after[33] == lo
    &&& forall|other: int| 0 <= other < 32 ==> #[trigger] after[other] == before[other]
}

/// Whether an instruction is one with three register fields.
pub open spec fn is_register_form(
    instruction: u32,
    opcode: u32,
    rs: u32,
    rt: u32,
    rd: u32,
    shift: u32,
    funct: u32,
) -> bool {
    &&& opcode < 64 && rs < 32 && rt < 32 && rd < 32 && shift < 32 && funct < 64
    &&& instruction == opcode * 0x400_0000 + rs * 0x20_0000 + rt * 0x1_0000 + rd * 0x800 + shift
        * 0x40 + funct
}

/// Whether an instruction is one with an immediate operand.
pub open spec fn is_immediate_form(
    instruction: u32,
    opcode: u32,
    rs: u32,
    rt: u32,
    immediate: u32,
) -> bool {
    &&& opcode < 64 && rs < 32 && rt < 32 && immediate < 0x1_0000
    &&& instruction == opcode * 0x400_0000 + rs * 0x20_0000 + rt * 0x1_0000 + immediate
}

/// An immediate operand as a number with a sign.
pub open spec fn signed_half(immediate: u32) -> int {
    if immediate < 0x8000 {
        immediate as int
    } else {
        immediate - 0x1_0000
    }
}

/// Whether an instruction leaves these registers and nothing else changed: run by the
/// interpreter, which goes on behind it or at the target of a branch in front of it,
/// and as a compiled block of its own.
pub open spec fn leaves(
    state: CpuState,
    memory: MemoryView,
    policy: UnknownInstructionPolicy,
    instruction: u32,
    after: Seq<u32>,
) -> bool {
    let behind = ((state.pc + 4) % 0x1_0000_0000) as u32;
    &&& interpret(state, memory, instruction, policy) == Interpreted::Done(
        CpuState {
            regs: after,
            pc: match state.delayed {
                Some(target) => target,
                None => behind,
            },
            delayed: None,
        },
        memory,
    )
    &&& block_exit(state.pc, seq![instruction], Machine { regs: state.regs, memory }) == (
    BlockExit { regs: after, pc: behind, memory, completed: 1 })
}

proof fn lemma_register_bits(
    instruction: u32,
    opcode: u32,
    rs: u32,
    rt: u32,
    rd: u32,
    shift: u32,
    funct: u32,
)
    by (bit_vector)
    requires
        opcode < 64 && rs < 32 && rt < 32 && rd < 32 && shift < 32 && funct < 64,
        instruction == opcode * 0x400_0000 + rs * 0x20_0000 + rt * 0x1_0000 + rd * 0x800 + shift
            * 0x40 + funct,
    ensures
        instruction >> 26 == opcode,
        (instruction >> 21) & 0x1f == rs,
        (instruction >> 16) & 0x1f == rt,
        (instruction >> 11) & 0x1f == rd,
        (instruction >> 6) & 0x1f == shift,
        instruction & 0x3f == funct,
{
}

proof fn lemma_immediate_bits(instruction: u32, opcode: u32, rs: u32, rt: u32, immediate: u32)
    by (bit_vector)
    requires
        opcode < 64 && rs < 32 && rt < 32 && immediate < 0x1_0000,
        instruction == opcode * 0x400_0000 + rs * 0x20_0000 + rt * 0x1_0000 + immediate,
    ensures
        instruction >> 26 == opcode,
        (instruction >> 21) & 0x1f == rs,
        (instruction >> 16) & 0x1f == rt,
        instruction as u16 as u32 == immediate,
        instruction as i16 as i32 as u32 == if immediate < 0x8000 {
            immediate as int
        } else {
            immediate + 0xffff_0000
        },
{
}

/// The fields of an instruction with three register fields.
pub proof fn lemma_register_form(
    instruction: u32,
    opcode: u32,
    rs: u32,
    rt: u32,
    rd: u32,
    shift: u32,
    funct: u32,
)
    requires
        is_register_form(instruction, opcode, rs, rt, rd, shift, funct),
    ensures
        opcode_of(instruction) == opcode,
        rs_of(instruction) == rs,
        rt_of(instruction) == rt,
        rd_of(instruction) == rd,
        shamt_of(instruction) == shift,
        funct_of(instruction) == funct,
{
    lemma_register_bits(instruction, opcode, rs, rt, rd, shift, funct);
}

/// The fields of an instruction with an immediate operand.
pub proof fn lemma_immediate_form(
    instruction: u32,
    opcode: u32,
    rs: u32,
    rt: u32,
    immediate: u32,
)
    requires
        is_immediate_form(instruction, opcode, rs, rt, immediate),
    ensures
        opcode_of(instruction) == opcode,
        rs_of(instruction) == rs,
        rt_of(instruction) == rt,
        unsigned_immediate(instruction) == immediate,
        signed(signed_immediate(instruction)) == signed_half(immediate),
        signed_immediate(instruction) == if immediate < 0x8000 {
            immediate as int
        } else {
            immediate + 0xffff_0000
        },
{
    lemma_immediate_bits(instruction, opcode, rs, rt, immediate);
}

/// A register instruction leaves what its effect on registers says.
pub proof fn lemma_leaves(
    state: CpuState,
    memory: MemoryView,
    policy: UnknownInstructionPolicy,
    instruction: u32,
)
    requires
        register_instruction(instruction),
        !control_flow(instruction),
        !memory_instruction(instruction),
    ensures
        leaves(state, memory, policy, instruction, register_effect(state.regs, instruction)),
{
    let code = seq![instruction];
    let machine = Machine { regs: state.regs, memory };
    assert(code[0] == instruction);
    assert(straight(code[0]));
    assert(straight_end(code, 1) == 1);
    assert(straight_end(code, 0) == 1);
    assert(straight_progress(state.pc, code, 0, machine) == Progress::Inside(machine));
    assert(pc_at(state.pc, 1) == ((state.pc + 4) % 0x1_0000_0000) as u32);
}

// Arithmetic.

/// Addition: the result is the sum modulo the size of a word.
pub proof fn law_addition(
    state: CpuState,
    memory: MemoryView,
    policy: UnknownInstructionPolicy,
    instruction: u32,
    rs: u32,
    rt: u32,
    rd: u32,
    shift: u32,
    funct: u32,
)
    requires
        state.regs.len() == REGISTER_COUNT,
        is_register_form(instruction, 0, rs, rt, rd, shift, funct),
        funct == 0x20 || funct == 0x21,
    ensures
        exists|after: Seq<u32>, result: u32|
            {
                &&& #[trigger] leaves(state, memory, policy, instruction, after)
                &&& #[trigger] put(state.regs, after, rd as int, result)
                &&& result == (value(state.regs, rs as int) + value(state.regs, rt as int))
                    % 0x1_0000_0000
            },
{
    lemma_register_form(instruction, 0, rs, rt, rd, shift, funct);
    lemma_leaves(state, memory, policy, instruction);
    let after = register_effect(state.regs, instruction);
    let result = value(state.regs, rs as int).wrapping_add(value(state.regs, rt as int));
    assert(put(state.regs, after, rd as int, result));
}

/// Subtraction: the result and the second operand add up to the first one, modulo the
/// size of a word.
pub proof fn law_subtraction(
    state: CpuState,
    memory: MemoryView,
    policy: UnknownInstructionPolicy,
    instruction: u32,
    rs: u32,
    rt: u32,
    rd: u32,
    shift: u32,
    funct: u32,
)
    requires
        state.regs.len() == REGISTER_COUNT,
        is_register_form(instruction, 0, rs, rt, rd, shift, funct),
        funct == 0x22 || funct == 0x23,
    ensures
        exists|after: Seq<u32>, result: u32|
            {
                &&& #[trigger] leaves(state, memory, policy, instruction, after)
                &&& #[trigger] put(state.regs, after, rd as int, result)
                &&& (result + value(state.regs, rt as int)) % 0x1_0000_0000 == value(
                    state.regs,
                    rs as int,
                )
            },
{
    lemma_register_form(instruction, 0, rs, rt, rd, shift, funct);
    lemma_leaves(state, memory, policy, instruction);
    let after = register_effect(state.regs, instruction);
    let result = value(state.regs, rs as int).wrapping_sub(value(state.regs, rt as int));
    assert(put(state.regs, after, rd as int, result));
}

/// Comparison: the result is one where the first operand is less than the second, as
/// numbers with or without a sign, and zero elsewhere.
pub proof fn law_comparison(
    state: CpuState,
    memory: MemoryView,
    policy: UnknownInstructionPolicy,
    instruction: u32,
    rs: u32,
    rt: u32,
    rd: u32,
    shift: u32,
    funct: u32,
)
    requires
        state.regs.len() == REGISTER_COUNT,
        is_register_form(instruction, 0, rs, rt, rd, shift, funct),
        funct == 0x2a || funct == 0x2b,
    ensures
        exists|after: Seq<u32>, result: u32|
            {
                let left = value(state.regs, rs as int);
                let right = value(state.regs, rt as int);
                &&& #[trigger] leaves(state, memory, policy, instruction, after)
                &&& #[trigger] put(state.regs, after, rd as int, result)
                &&& result <= 1
                &&& funct == 0x2a ==> (result == 1 <==> signed(left) < signed(right))
                &&& funct == 0x2b ==> (result == 1 <==> left < right)
            },
{
    lemma_register_form(instruction, 0, rs, rt, rd, shift, funct);
    lemma_leaves(state, memory, policy, instruction);
    let after = register_effect(state.regs, instruction);
    let left = value(state.regs, rs as int);
    let right = value(state.regs, rt as int);
    lemma_signed(left);
    lemma_signed(right);
    let result = if (if funct == 0x2a {
        signed(left) < signed(right)
    } else {
        left < right
    }) {
        1u32
    } else {
        0u32
    };
    assert(put(state.regs, after, rd as int, result));
}

/// The sign of a word is that of its signed counterpart.
pub proof fn lemma_signed(word: u32)
    ensures
        word as i32 == signed(word),
{
    assert(word as i32 == if word < 0x8000_0000 {
        word as int
    } else {
        word - 0x1_0000_0000
    }) by (bit_vector);
}

/// Bitwise operations: each bit of the result comes of the bits at its place.
pub proof fn law_bitwise_operations(
    state: CpuState,
    memory: MemoryView,
    policy: UnknownInstructionPolicy,
    instruction: u32,
    rs: u32,
    rt: u32,
    rd: u32,
    shift: u32,
    funct: u32,
)
    requires
        state.regs.len() == REGISTER_COUNT,
        is_register_form(instruction, 0, rs, rt, rd, shift, funct),
        0x24 <= funct <= 0x27,
    ensures
        exists|after: Seq<u32>, result: u32|
            {
                let left = value(state.regs, rs as int);
                let right = value(state.regs, rt as int);
                &&& #[trigger] leaves(state, memory, policy, instruction, after)
                &&& #[trigger] put(state.regs, after, rd as int, result)
                &&& forall|b: u32|
                    b < 32 ==> {
                        let (l, r) = (bit(left, b) == 1, bit(right, b) == 1);
                        #[trigger] bit(result, b) == 1 <==> if funct == 0x24 {
                            l && r
                        } else if funct == 0x25 {
                            l || r
                        } else if funct == 0x26 {
                            l != r
                        } else {
                            !l && !r
                        }
                    }
            },
{
    lemma_register_form(instruction, 0, rs, rt, rd, shift, funct);
    lemma_leaves(state, memory, policy, instruction);
    let after = register_effect(state.regs, instruction);
    let left = value(state.regs, rs as int);
    let right = value(state.regs, rt as int);
    let result = if funct == 0x24 {
        left & right
    } else if funct == 0x25 {
        left | right
    } else if funct == 0x26 {
        left ^ right
    } else {
        !(left | right)
    };
    assert(put(state.regs, after, rd as int, result));
    assert forall|b: u32| b < 32 implies ({
        let (l, r) = (bit(left, b) == 1, bit(right, b) == 1);
        #[trigger] bit(result, b) == 1 <==> if funct == 0x24 {
            l && r
        } else if funct == 0x25 {
            l || r
        } else if funct == 0x26 {
            l != r
        } else {
            !l && !r
        }
    }) by {
        lemma_bitwise(left, right, b);
    }
}

pub proof fn lemma_bitwise(left: u32, right: u32, b: u32)
    by (bit_vector)
    requires
        b < 32,
    ensures
        ((left & right) >> b) & 1 == 1 <==> (left >> b) & 1 == 1 && (right >> b) & 1 == 1,
        ((left | right) >> b) & 1 == 1 <==> (left >> b) & 1 == 1 || (right >> b) & 1 == 1,
        ((left ^ right) >> b) & 1 == 1 <==> ((left >> b) & 1 == 1) != ((right >> b) & 1 == 1),
        (!(left | right) >> b) & 1 == 1 <==> (left >> b) & 1 != 1 && (right >> b) & 1 != 1,
{
}

/// Shifts: each bit of the result is the one so many places below or above it. What
/// comes in is zero, or the sign where the shift keeps it. The number of places is in
/// the instruction, or in a register, modulo the bits of a word.
pub proof fn law_shifts(
    state: CpuState,
    memory: MemoryView,
    policy: UnknownInstructionPolicy,
    instruction: u32,
    rs: u32,
    rt: u32,
    rd: u32,
    shift: u32,
    funct: u32,
)
    requires
        state.regs.len() == REGISTER_COUNT,
        is_register_form(instruction, 0, rs, rt, rd, shift, funct),
        funct == 0x00 || funct == 0x02 || funct == 0x03 || funct == 0x04 || funct == 0x06 || funct
            == 0x07,
    ensures
        exists|after: Seq<u32>, result: u32|
            {
                let word = value(state.regs, rt as int);
                let places = if funct < 0x04 {
                    shift as int
                } else {
                    value(state.regs, rs as int) as int % 32
                };
                &&& #[trigger] leaves(state, memory, policy, instruction, after)
                &&& #[trigger] put(state.regs, after, rd as int, result)
                &&& forall|b: u32|
                    b < 32 ==> #[trigger] bit(result, b) == if funct == 0x00 || funct == 0x04 {
                        if b >= places {
                            bit(word, (b - places) as u32)
                        } else {
                            0
                        }
                    } else if b + places < 32 {
                        bit(word, (b + places) as u32)
                    } else if funct == 0x03 || funct == 0x07 {
                        bit(word, 31)
                    } else {
                        0
                    }
            },
{
    lemma_register_form(instruction, 0, rs, rt, rd, shift, funct);
    let word = value(state.regs, rt as int);
    let amount = value(state.regs, rs as int);
    assert(amount & 0x1f == amount % 32) by (bit_vector);
    let places = if funct < 0x04 {
        shift
    } else {
        amount & 0x1f
    };
    let result = if funct == 0x00 || funct == 0x04 {
        word << places
    } else if funct == 0x02 || funct == 0x06 {
        word >> places
    } else {
        ((word as i32) >> places) as u32
    };
    let after = register_effect(state.regs, instruction);
    lemma_leaves(state, memory, policy, instruction);
    if instruction == 0 {
        assert(put(state.regs, after, rd as int, result));
    } else {
        assert(put(state.regs, after, rd as int, result));
    }
    assert forall|b: u32| b < 32 implies #[trigger] bit(result, b) == if funct == 0x00 || funct
        == 0x04 {
        if b >= places {
            bit(word, (b - places) as u32)
        } else {
            0
        }
    } else if b + places < 32 {
        bit(word, (b + places) as u32)
    } else if funct == 0x03 || funct == 0x07 {
        bit(word, 31)
    } else {
        0
    } by {
        lemma_shifted_bits(word, places, b);
    }
}

pub proof fn lemma_shifted_bits(word: u32, places: u32, b: u32)
    by (bit_vector)
    requires
        b < 32,
        places < 32,
    ensures
        ((word << places) >> b) & 1 == if b >= places {
            (word >> ((b - places) as u32)) & 1
        } else {
            0
        },
        ((word >> places) >> b) & 1 == if b + places < 32 {
            (word >> ((b + places) as u32)) & 1
        } else {
            0
        },
        ((((word as i32) >> places) as u32) >> b) & 1 == if b + places < 32 {
            (word >> ((b + places) as u32)) & 1
        } else {
            (word >> 31) & 1
        },
{
}

/// Conditional moves: the first operand is copied where the second one is zero, or is
/// not; else nothing changes.
pub proof fn law_conditional_moves(
    state: CpuState,
    memory: MemoryView,
    policy: UnknownInstructionPolicy,
    instruction: u32,
    rs: u32,
    rt: u32,
    rd: u32,
    shift: u32,
    funct: u32,
)
    requires
        state.regs.len() == REGISTER_COUNT,
        is_register_form(instruction, 0, rs, rt, rd, shift, funct),
        funct == 0x0a || funct == 0x0b,
    ensures
        exists|after: Seq<u32>|
            {
                &&& #[trigger] leaves(state, memory, policy, instruction, after)
                &&& if (value(state.regs, rt as int) == 0) == (funct == 0x0a) {
                    put(state.regs, after, rd as int, value(state.regs, rs as int))
                } else {
                    after == state.regs
                }
            },
{
    lemma_register_form(instruction, 0, rs, rt, rd, shift, funct);
    lemma_leaves(state, memory, policy, instruction);
    let after = register_effect(state.regs, instruction);
    if (value(state.regs, rt as int) == 0) == (funct == 0x0a) {
        assert(put(state.regs, after, rd as int, value(state.regs, rs as int)));
    } else {
        assert(after =~= state.regs);
    }
}

/// HI and LO are moved to and from the other registers.
pub proof fn law_moves_of_hi_and_lo(
    state: CpuState,
    memory: MemoryView,
    policy: UnknownInstructionPolicy,
    instruction: u32,
    rs: u32,
    rt: u32,
    rd: u32,
    shift: u32,
    funct: u32,
)
    requires
        state.regs.len() == REGISTER_COUNT,
        is_register_form(instruction, 0, rs, rt, rd, shift, funct),
        0x10 <= funct <= 0x13,
    ensures
        exists|after: Seq<u32>|
            {
                &&& #[trigger] leaves(state, memory, policy, instruction, after)
                &&& if funct == 0x10 {
                    put(state.regs, after, rd as int, state.regs[32])
                } else if funct == 0x12 {
                    put(state.regs, after, rd as int, state.regs[33])
                } else if funct == 0x11 {
                    put(state.regs, after, 32, value(state.regs, rs as int))
                } else {
                    put(state.regs, after, 33, value(state.regs, rs as int))
                }
            },
{
    lemma_register_form(instruction, 0, rs, rt, rd, shift, funct);
    lemma_leaves(state, memory, policy, instruction);
    let after = register_effect(state.regs, instruction);
    assert(after.len() == state.regs.len());
}

/// Multiplication: HI and LO together hold the product, of numbers with or without a
/// sign, modulo their size.
pub proof fn law_multiplication(
    state: CpuState,
    memory: MemoryView,
    policy: UnknownInstructionPolicy,
    instruction: u32,
    rs: u32,
    rt: u32,
    rd: u32,
    shift: u32,
    funct: u32,
)
    requires
        state.regs.len() == REGISTER_COUNT,
        is_register_form(instruction, 0, rs, rt, rd, shift, funct),
        funct == 0x18 || funct == 0x19,
    ensures
        exists|after: Seq<u32>, hi: u32, lo: u32|
            {
                let left = value(state.regs, rs as int);
                let right = value(state.regs, rt as int);
                &&& #[trigger] leaves(state, memory, policy, instruction, after)
                &&& #[trigger] put_pair(state.regs, after, hi, lo)
                &&& hi * 0x1_0000_0000 + lo == if funct == 0x18 {
                    (signed(left) * signed(right)) % 0x1_0000_0000_0000_0000
                } else {
                    left * right
                }
            },
{
    lemma_register_form(instruction, 0, rs, rt, rd, shift, funct);
    lemma_leaves(state, memory, policy, instruction);
    let after = register_effect(state.regs, instruction);
    let left = value(state.regs, rs as int);
    let right = value(state.regs, rt as int);
    let product = if funct == 0x18 {
        crate::isa::sign_extend_word(left).wrapping_mul(crate::isa::sign_extend_word(right))
    } else {
        (left as u64).wrapping_mul(right as u64)
    };
    lemma_pair(product);
    lemma_sign_extended(left);
    lemma_sign_extended(right);
    let hi = crate::isa::high_word(product);
    let lo = crate::isa::low_word(product);
    assert(put_pair(state.regs, after, hi, lo));
    if funct == 0x18 {
        lemma_signed_product(left, right);
    } else {
        assert(left * right <= 0xffff_ffff * 0xffff_ffff) by (nonlinear_arith)
            requires
                left <= 0xffff_ffff,
                right <= 0xffff_ffff,
        ;
    }
}

proof fn lemma_pair(word: u64)
    ensures
        crate::isa::high_word(word) * 0x1_0000_0000 + crate::isa::low_word(word) == word,
{
    assert((word >> 32) as u32 * 0x1_0000_0000 + (word as u32) == word) by (bit_vector);
}

pub proof fn lemma_sign_extended(word: u32)
    ensures
        crate::isa::sign_extend_word(word) == signed(word) % 0x1_0000_0000_0000_0000,
{
    assert(word as i32 as i64 as u64 == if word < 0x8000_0000 {
        word as int
    } else {
        word + 0xffff_ffff_0000_0000
    }) by (bit_vector);
}

proof fn lemma_signed_product(left: u32, right: u32)
    ensures
        crate::isa::sign_extend_word(left).wrapping_mul(crate::isa::sign_extend_word(right)) == (
        signed(left) * signed(right)) % 0x1_0000_0000_0000_0000,
{
    let size = 0x1_0000_0000_0000_0000int;
    lemma_sign_extended(left);
    lemma_sign_extended(right);
    vstd::arithmetic::div_mod::lemma_mul_mod_noop(signed(left), signed(right), size);
}

/// Division: the quotient times the divisor plus the remainder is the dividend, the
/// remainder is smaller than the divisor, and with signs it has that of the dividend.
/// A division by zero, or whose quotient is no word, changes nothing.
pub proof fn law_division(
    state: CpuState,
    memory: MemoryView,
    policy: UnknownInstructionPolicy,
    instruction: u32,
    rs: u32,
    rt: u32,
    rd: u32,
    shift: u32,
    funct: u32,
)
    requires
        state.regs.len() == REGISTER_COUNT,
        is_register_form(instruction, 0, rs, rt, rd, shift, funct),
        funct == 0x1a || funct == 0x1b,
    ensures
        exists|after: Seq<u32>, hi: u32, lo: u32|
            {
                let left = value(state.regs, rs as int);
                let right = value(state.regs, rt as int);
                &&& #[trigger] leaves(state, memory, policy, instruction, after)
                &&& #[trigger] put_pair(state.regs, after, hi, lo)
                &&& if right == 0 || funct == 0x1a && left == 0x8000_0000 && right == 0xffff_ffff {
                    after == state.regs
                } else if funct == 0x1a {
                    &&& signed(lo) * signed(right) + signed(hi) == signed(left)
                    &&& size_of_number(signed(hi)) < size_of_number(signed(right))
                    &&& signed(hi) != 0 ==> (signed(hi) < 0 <==> signed(left) < 0)
                } else {
                    &&& lo * right + hi == left
                    &&& hi < right
                }
            },
{
    lemma_register_form(instruction, 0, rs, rt, rd, shift, funct);
    lemma_leaves(state, memory, policy, instruction);
    let after = register_effect(state.regs, instruction);
    let left = value(state.regs, rs as int);
    let right = value(state.regs, rt as int);
    let hi = after[32];
    let lo = after[33];
    assert(put_pair(state.regs, after, hi, lo));
    if !(right == 0 || funct == 0x1a && left == 0x8000_0000 && right == 0xffff_ffff) {
        if funct == 0x1a {
            lemma_signed_division(left, right);
        } else {
            vstd::arithmetic::div_mod::lemma_fundamental_div_mod(left as int, right as int);
            assert(right * (left as int / right as int) == (left as int / right as int) * right)
                by (nonlinear_arith);
            vstd::arithmetic::div_mod::lemma_mod_bound(left as int, right as int);
        }
    }
}

/// A number without its sign.
pub open spec fn size_of_number(number: int) -> int {
    if number < 0 {
        -number
    } else {
        number
    }
}

pub proof fn lemma_signed_division(left: u32, right: u32)
    requires
        right != 0,
        !(left == 0x8000_0000 && right == 0xffff_ffff),
    ensures
        ({
            let lo = crate::isa::quotient_signed(left, right);
            let hi = crate::isa::remainder_signed(left, right);
            &&& signed(lo) * signed(right) + signed(hi) == signed(left)
            &&& size_of_number(signed(hi)) < size_of_number(signed(right))
            &&& signed(hi) != 0 ==> (signed(hi) < 0 <==> signed(left) < 0)
        }),
{
    let n = crate::isa::magnitude(left) as int;
    let d = crate::isa::magnitude(right) as int;
    let q = n / d;
    let r = n % d;
    vstd::arithmetic::div_mod::lemma_fundamental_div_mod(n, d);
    vstd::arithmetic::div_mod::lemma_mod_bound(n, d);
    vstd::arithmetic::div_mod::lemma_div_is_ordered_by_denominator(n, 1, d);
    assert(0 <= q) by (nonlinear_arith)
        requires
            q == n / d,
            n >= 0,
            d > 0,
    ;
    assert(n == d * q + r);
    assert(d * q == q * d && q * d == (-q) * (-d) && (-q) * d == -(q * d) && q * (-d) == -(q * d))
        by (nonlinear_arith);
    assert(q <= n);
    assert(q == 0x8000_0000 ==> n == 0x8000_0000 && d == 1) by (nonlinear_arith)
        requires
            n <= 0x8000_0000,
            d >= 1,
            0 <= r < d,
            n == d * q + r,
    ;
}

// Products with an accumulator.

/// Multiply and add or subtract: HI and LO together change by the product, modulo their
/// size. Multiplication to a register: the product modulo the size of a word. Counting:
/// the zeros, or ones, in front of the first other bit.
pub proof fn law_second_group(
    state: CpuState,
    memory: MemoryView,
    policy: UnknownInstructionPolicy,
    instruction: u32,
    rs: u32,
    rt: u32,
    rd: u32,
    shift: u32,
    funct: u32,
)
    requires
        state.regs.len() == REGISTER_COUNT,
        is_register_form(instruction, 0x1c, rs, rt, rd, shift, funct),
        funct <= 0x02 || funct == 0x04 || funct == 0x05 || funct == 0x20 || funct == 0x21,
    ensures
        exists|after: Seq<u32>|
            {
                let left = value(state.regs, rs as int);
                let right = value(state.regs, rt as int);
                let held = state.regs[32] * 0x1_0000_0000 + state.regs[33];
                let result = after[32] * 0x1_0000_0000 + after[33];
                let size = 0x1_0000_0000_0000_0000int;
                &&& #[trigger] leaves(state, memory, policy, instruction, after)
                &&& after.len() == state.regs.len()
                &&& if funct == 0x02 {
                    put(
                        state.regs,
                        after,
                        rd as int,
                        ((left * right) % 0x1_0000_0000) as u32,
                    )
                } else if funct >= 0x20 {
                    exists|count: u32|
                        {
                            &&& #[trigger] put(state.regs, after, rd as int, count)
                            &&& count <= 32
                            &&& forall|b: u32|
                                31 - count < b < 32 ==> #[trigger] bit(left, b) == if funct == 0x20 {
                                    0u32
                                } else {
                                    1
                                }
                            &&& count < 32 ==> bit(left, (31 - count) as u32) == if funct == 0x20 {
                                1u32
                            } else {
                                0
                            }
                        }
                } else {
                    &&& forall|r: int| 0 <= r < 32 ==> #[trigger] after[r] == state.regs[r]
                    &&& funct <= 0x01 ==> result == (held + left * right) % size
                    &&& funct >= 0x04 ==> (result + left * right) % size == held
                }
            },
{
    lemma_register_form(instruction, 0x1c, rs, rt, rd, shift, funct);
    lemma_leaves(state, memory, policy, instruction);
    let after = register_effect(state.regs, instruction);
    let left = value(state.regs, rs as int);
    let right = value(state.regs, rt as int);
    let hi = state.regs[32];
    let lo = state.regs[33];
    let held = crate::isa::accumulator(hi, lo);
    assert(((hi as u64) << 32) | (lo as u64) == hi * 0x1_0000_0000 + lo) by (bit_vector);
    assert(left * right <= 0xffff_ffff * 0xffff_ffff) by (nonlinear_arith)
        requires
            left <= 0xffff_ffff,
            right <= 0xffff_ffff,
    ;
    let product = (left as u64).wrapping_mul(right as u64);
    assert(product == left * right);
    assert(after.len() == state.regs.len());
    if funct <= 0x01 {
        lemma_pair(held.wrapping_add(product));
    } else if funct == 0x02 {
        assert(left.wrapping_mul(right) == ((left * right) % 0x1_0000_0000) as u32);
        assert(put(state.regs, after, rd as int, left.wrapping_mul(right)));
    } else if funct < 0x20 {
        lemma_pair(held.wrapping_sub(product));
    } else if funct == 0x20 {
        let count = vstd::std_specs::bits::u32_leading_zeros(left);
        lemma_leading_zeros(left);
        assert(put(state.regs, after, rd as int, count));
    } else {
        let count = vstd::std_specs::bits::u32_leading_zeros(!left);
        lemma_leading_zeros(!left);
        assert(put(state.regs, after, rd as int, count));
        assert forall|b: u32| 31 - count < b < 32 implies #[trigger] bit(left, b) == 1 by {
            assert(bit(!left, b) == 0);
            lemma_inverted(left, b);
        }
        if count < 32 {
            lemma_inverted(left, (31 - count) as u32);
        }
    }
}

pub proof fn lemma_inverted(word: u32, b: u32)
    by (bit_vector)
    requires
        b < 32,
    ensures
        (!word >> b) & 1 == 1 - ((word >> b) & 1),
{
}

pub proof fn lemma_leading_zeros(word: u32)
    ensures
        ({
            let count = vstd::std_specs::bits::u32_leading_zeros(word);
            &&& count <= 32
            &&& forall|b: u32| 31 - count < b < 32 ==> #[trigger] bit(word, b) == 0
            &&& count < 32 ==> bit(word, (31 - count) as u32) == 1
        }),
{
    vstd::std_specs::bits::axiom_u32_leading_zeros(word);
    let count = vstd::std_specs::bits::u32_leading_zeros(word);
    assert forall|b: u32| 31 - count < b < 32 implies #[trigger] bit(word, b) == 0 by {
        assert((word >> b) & 1u32 == 0);
    }
    if count < 32 {
        let shifted = word >> ((31 - count) as u32);
        assert(shifted & 1 == 0 || shifted & 1 == 1) by (bit_vector);
        assert(shifted & 1u32 != 0);
    }
}

// Immediate operands.

/// Operations with an immediate operand: sums and comparisons take it with its sign,
/// bitwise ones take it as it is, and it can be put into the upper half of a word.
pub proof fn law_immediate_operands(
    state: CpuState,
    memory: MemoryView,
    policy: UnknownInstructionPolicy,
    instruction: u32,
    opcode: u32,
    rs: u32,
    rt: u32,
    immediate: u32,
)
    requires
        state.regs.len() == REGISTER_COUNT,
        is_immediate_form(instruction, opcode, rs, rt, immediate),
        0x08 <= opcode <= 0x0f,
    ensures
        exists|after: Seq<u32>, result: u32|
            {
                let left = value(state.regs, rs as int);
                &&& #[trigger] leaves(state, memory, policy, instruction, after)
                &&& #[trigger] put(state.regs, after, rt as int, result)
                &&& opcode == 0x08 || opcode == 0x09 ==> result == (left + signed_half(immediate))
                    % 0x1_0000_0000
                &&& opcode == 0x0a ==> result <= 1 && (result == 1 <==> signed(left) < signed_half(
                    immediate,
                ))
                &&& opcode == 0x0b ==> result <= 1 && (result == 1 <==> left < signed_half(
                    immediate,
                ) % 0x1_0000_0000)
                &&& 0x0c <= opcode <= 0x0e ==> forall|b: u32|
                    b < 32 ==> {
                        let (l, r) = (bit(left, b) == 1, bit(immediate, b) == 1);
                        #[trigger] bit(result, b) == 1 <==> if opcode == 0x0c {
                            l && r
                        } else if opcode == 0x0d {
                            l || r
                        } else {
                            l != r
                        }
                    }
                &&& opcode == 0x0f ==> result == immediate * 0x1_0000
            },
{
    lemma_immediate_form(instruction, opcode, rs, rt, immediate);
    lemma_leaves(state, memory, policy, instruction);
    let after = register_effect(state.regs, instruction);
    let left = value(state.regs, rs as int);
    lemma_signed(left);
    lemma_signed(signed_immediate(instruction));
    let result = crate::isa::immediate_value(state.regs, instruction);
    assert(put(state.regs, after, rt as int, result));
    if opcode == 0x0f {
        assert(immediate << 16 == immediate * 0x1_0000) by (bit_vector)
            requires
                immediate < 0x1_0000,
        ;
    }
    if 0x0c <= opcode <= 0x0e {
        assert forall|b: u32| b < 32 implies ({
            let (l, r) = (bit(left, b) == 1, bit(immediate, b) == 1);
            #[trigger] bit(result, b) == 1 <==> if opcode == 0x0c {
                l && r
            } else if opcode == 0x0d {
                l || r
            } else {
                l != r
            }
        }) by {
            lemma_bitwise(left, immediate, b);
        }
    }
}

/// Synchronization and prefetching change nothing.
pub proof fn law_hints_change_nothing(
    state: CpuState,
    memory: MemoryView,
    policy: UnknownInstructionPolicy,
    instruction: u32,
)
    requires
        state.regs.len() == REGISTER_COUNT,
        instruction / 0x400_0000 == 0x33 || (instruction / 0x400_0000 == 0 && instruction % 0x40
            == 0x0f),
    ensures
        leaves(state, memory, policy, instruction, state.regs),
{
    assert(instruction >> 26 == instruction / 0x400_0000 && instruction & 0x3f == instruction
        % 0x40) by (bit_vector);
    lemma_leaves(state, memory, policy, instruction);
}

} // verus!
