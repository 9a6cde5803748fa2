//! The MIPS32 instructions that the emulator understands, and what they do.
//!
//! A register file is a sequence of [`REGISTER_COUNT`] words: the general
//! registers, then HI and LO. Register zero reads as zero whatever is stored.

use crate::memory::{guest_read, guest_write, host_address, MemoryView, Width};
use vstd::prelude::*;

verus! {

/// General registers, HI and LO.
pub const REGISTER_COUNT: usize = 34;

/// Index of HI in a register file.
pub const HI_INDEX: usize = 32;

/// Index of LO in a register file.
pub const LO_INDEX: usize = 33;

/// Registers and memory between two instructions.
#[verifier::ext_equal]
pub struct Machine {
    pub regs: Seq<u32>,
    pub memory: MemoryView,
}

pub open spec fn reg(regs: Seq<u32>, index: int) -> u32 {
    if index == 0 {
        0
    } else {
        regs[index]
    }
}

pub open spec fn with_reg(regs: Seq<u32>, index: int, value: u32) -> Seq<u32> {
    if index == 0 {
        regs
    } else {
        regs.update(index, value)
    }
}

// Instruction fields.

pub open spec fn opcode_of(instruction: u32) -> u32 {
    instruction >> 26
}

pub open spec fn funct_of(instruction: u32) -> u32 {
    instruction & 0x3f
}

pub open spec fn rs_of(instruction: u32) -> int {
    ((instruction >> 21) & 0x1f) as int
}

pub open spec fn rt_of(instruction: u32) -> int {
    ((instruction >> 16) & 0x1f) as int
}

pub open spec fn rd_of(instruction: u32) -> int {
    ((instruction >> 11) & 0x1f) as int
}

pub open spec fn shamt_of(instruction: u32) -> u32 {
    (instruction >> 6) & 0x1f
}

/// The immediate operand, sign-extended.
pub open spec fn signed_immediate(instruction: u32) -> u32 {
    instruction as i16 as i32 as u32
}

/// The immediate operand, zero-extended.
pub open spec fn unsigned_immediate(instruction: u32) -> u32 {
    instruction as u16 as u32
}

/// Every register field names one of the general registers.
pub proof fn lemma_fields(instruction: u32)
    ensures
        0 <= rs_of(instruction) < 32,
        0 <= rt_of(instruction) < 32,
        0 <= rd_of(instruction) < 32,
        shamt_of(instruction) < 32,
        shamt_of(instruction) & 0x1f == shamt_of(instruction),
        opcode_of(instruction) < 64,
        funct_of(instruction) < 64,
{
    assert((instruction >> 21) & 0x1f < 32 && (instruction >> 16) & 0x1f < 32 && (instruction >> 11)
        & 0x1f < 32 && (instruction >> 6) & 0x1f < 32 && ((instruction >> 6) & 0x1f) & 0x1f == (
    instruction >> 6) & 0x1f && instruction >> 26 < 64 && instruction & 0x3f < 64)
        by (bit_vector);
}

/// Shift amounts are taken modulo the word size.
pub proof fn lemma_shift_amount(amount: u32)
    ensures
        amount & 0x1f < 32,
        (amount & 0x1f) & 0x1f == amount & 0x1f,
{
    assert(amount & 0x1f < 32 && (amount & 0x1f) & 0x1f == amount & 0x1f) by (bit_vector);
}

// Word arithmetic.

pub open spec fn signed_less(left: u32, right: u32) -> bool {
    (left as i32) < (right as i32)
}

pub open spec fn shift_right_signed(value: u32, amount: u32) -> u32 {
    ((value as i32) >> amount) as u32
}

/// Sign-extends a word to 64 bits.
pub open spec fn sign_extend_word(value: u32) -> u64 {
    value as i32 as i64 as u64
}

/// Sign-extends the low byte of a word.
pub open spec fn sign_extend_byte(value: u32) -> u32 {
    value as u8 as i8 as i32 as u32
}

/// Sign-extends the low half of a word.
pub open spec fn sign_extend_half(value: u32) -> u32 {
    value as u16 as i16 as i32 as u32
}

/// Whether a word is negative in two's complement.
pub open spec fn negative(value: u32) -> bool {
    value >= 0x8000_0000
}

/// The absolute value of a word in two's complement.
pub open spec fn magnitude(value: u32) -> u32 {
    if negative(value) {
        (0x1_0000_0000 - value) as u32
    } else {
        value
    }
}

/// The word that stands for minus `value`.
pub open spec fn negated(value: u32) -> u32 {
    if value == 0 {
        0
    } else {
        (0x1_0000_0000 - value) as u32
    }
}

/// Signed quotient, rounded towards zero.
pub open spec fn quotient_signed(numerator: u32, denominator: u32) -> u32 {
    let quotient = (magnitude(numerator) / magnitude(denominator)) as u32;
    if negative(numerator) != negative(denominator) {
        negated(quotient)
    } else {
        quotient
    }
}

/// Signed remainder, with the sign of the numerator.
pub open spec fn remainder_signed(numerator: u32, denominator: u32) -> u32 {
    let remainder = (magnitude(numerator) % magnitude(denominator)) as u32;
    if negative(numerator) {
        negated(remainder)
    } else {
        remainder
    }
}

/// Whether DIV leaves HI and LO alone: division by zero or overflow.
pub open spec fn signed_division_undefined(numerator: u32, denominator: u32) -> bool {
    denominator == 0 || numerator == 0x8000_0000 && denominator == 0xffff_ffff
}

/// The 64-bit value in HI and LO.
pub open spec fn accumulator(hi: u32, lo: u32) -> u64 {
    ((hi as u64) << 32) | (lo as u64)
}

pub open spec fn high_word(value: u64) -> u32 {
    (value >> 32) as u32
}

pub open spec fn low_word(value: u64) -> u32 {
    value as u32
}

/// A register file whose HI and LO hold a 64-bit value.
pub open spec fn with_pair(regs: Seq<u32>, value: u64) -> Seq<u32> {
    regs.update(LO_INDEX as int, low_word(value)).update(HI_INDEX as int, high_word(value))
}

// Instruction classes.

/// Branches and jumps, including those that are not implemented.
pub open spec fn control_flow(instruction: u32) -> bool {
    let opcode = opcode_of(instruction);
    let funct = funct_of(instruction);
    1 <= opcode <= 7 || opcode == 0 && (funct == 0x08 || funct == 0x09)
}

/// Branches and jumps that are implemented.
pub open spec fn supported_branch(instruction: u32) -> bool {
    let opcode = opcode_of(instruction);
    let funct = funct_of(instruction);
    let kind = rt_of(instruction);
    if opcode == 0 {
        funct == 0x08 || funct == 0x09
    } else if opcode == 1 {
        kind == 0x00 || kind == 0x01 || kind == 0x10 || kind == 0x11
    } else {
        2 <= opcode <= 7
    }
}

/// Loads and stores.
pub open spec fn memory_instruction(instruction: u32) -> bool {
    let opcode = opcode_of(instruction);
    0x20 <= opcode <= 0x26 || 0x28 <= opcode <= 0x2b || opcode == 0x2e || opcode == 0x30 || opcode
        == 0x38
}

/// Implemented instructions that only touch registers.
pub open spec fn register_instruction(instruction: u32) -> bool {
    let opcode = opcode_of(instruction);
    let funct = funct_of(instruction);
    if instruction == 0 {
        true
    } else if opcode == 0 {
        ||| funct == 0x00
        ||| 0x02 <= funct <= 0x04
        ||| 0x06 <= funct <= 0x07
        ||| 0x0a <= funct <= 0x0b
        ||| 0x0f <= funct <= 0x13
        ||| 0x18 <= funct <= 0x1b
        ||| 0x20 <= funct <= 0x27
        ||| 0x2a <= funct <= 0x2b
    } else if opcode == 0x1c {
        0x00 <= funct <= 0x02 || 0x04 <= funct <= 0x05 || 0x20 <= funct <= 0x21
    } else {
        0x08 <= opcode <= 0x0f || opcode == 0x33
    }
}

/// Instructions that a compiled block may hold in a branch delay slot.
pub open spec fn delay_instruction(instruction: u32) -> bool {
    !control_flow(instruction) && (memory_instruction(instruction) || register_instruction(
        instruction,
    ))
}

// Register instructions.

/// Result of a SPECIAL instruction that writes its destination register.
pub open spec fn special_value(regs: Seq<u32>, instruction: u32) -> u32 {
    let funct = funct_of(instruction);
    let s = reg(regs, rs_of(instruction));
    let t = reg(regs, rt_of(instruction));
    let d = reg(regs, rd_of(instruction));
    if funct == 0x00 {
        t << shamt_of(instruction)
    } else if funct == 0x02 {
        t >> shamt_of(instruction)
    } else if funct == 0x03 {
        shift_right_signed(t, shamt_of(instruction))
    } else if funct == 0x04 {
        t << (s & 0x1f)
    } else if funct == 0x06 {
        t >> (s & 0x1f)
    } else if funct == 0x07 {
        shift_right_signed(t, s & 0x1f)
    } else if funct == 0x0a {
        if t == 0 {
            s
        } else {
            d
        }
    } else if funct == 0x0b {
        if t != 0 {
            s
        } else {
            d
        }
    } else if funct == 0x10 {
        regs[HI_INDEX as int]
    } else if funct == 0x12 {
        regs[LO_INDEX as int]
    } else if funct == 0x20 || funct == 0x21 {
        s.wrapping_add(t)
    } else if funct == 0x22 || funct == 0x23 {
        s.wrapping_sub(t)
    } else if funct == 0x24 {
        s & t
    } else if funct == 0x25 {
        s | t
    } else if funct == 0x26 {
        s ^ t
    } else if funct == 0x27 {
        !(s | t)
    } else if funct == 0x2a {
        if signed_less(s, t) {
            1
        } else {
            0
        }
    } else {
        if s < t {
            1
        } else {
            0
        }
    }
}

/// Register file after an implemented SPECIAL instruction other than a jump.
pub open spec fn special_effect(regs: Seq<u32>, instruction: u32) -> Seq<u32> {
    let funct = funct_of(instruction);
    let s = reg(regs, rs_of(instruction));
    let t = reg(regs, rt_of(instruction));
    if funct == 0x0f {
        regs
    } else if funct == 0x11 {
        regs.update(HI_INDEX as int, s)
    } else if funct == 0x13 {
        regs.update(LO_INDEX as int, s)
    } else if funct == 0x18 {
        with_pair(regs, sign_extend_word(s).wrapping_mul(sign_extend_word(t)))
    } else if funct == 0x19 {
        with_pair(regs, (s as u64).wrapping_mul(t as u64))
    } else if funct == 0x1a {
        if signed_division_undefined(s, t) {
            regs
        } else {
            regs.update(LO_INDEX as int, quotient_signed(s, t)).update(
                HI_INDEX as int,
                remainder_signed(s, t),
            )
        }
    } else if funct == 0x1b {
        if t == 0 {
            regs
        } else {
            regs.update(LO_INDEX as int, (s / t) as u32).update(HI_INDEX as int, (s % t) as u32)
        }
    } else {
        with_reg(regs, rd_of(instruction), special_value(regs, instruction))
    }
}

/// Register file after an implemented SPECIAL2 instruction.
pub open spec fn special2_effect(regs: Seq<u32>, instruction: u32) -> Seq<u32> {
    let funct = funct_of(instruction);
    let s = reg(regs, rs_of(instruction));
    let t = reg(regs, rt_of(instruction));
    let product = (s as u64).wrapping_mul(t as u64);
    let sum = accumulator(regs[HI_INDEX as int], regs[LO_INDEX as int]);
    if funct == 0x00 || funct == 0x01 {
        with_pair(regs, sum.wrapping_add(product))
    } else if funct == 0x04 || funct == 0x05 {
        with_pair(regs, sum.wrapping_sub(product))
    } else if funct == 0x02 {
        with_reg(regs, rd_of(instruction), s.wrapping_mul(t))
    } else if funct == 0x20 {
        with_reg(regs, rd_of(instruction), vstd::std_specs::bits::u32_leading_zeros(s))
    } else {
        with_reg(regs, rd_of(instruction), vstd::std_specs::bits::u32_leading_zeros(!s))
    }
}

/// Result of an instruction with an immediate operand.
pub open spec fn immediate_value(regs: Seq<u32>, instruction: u32) -> u32 {
    let opcode = opcode_of(instruction);
    let s = reg(regs, rs_of(instruction));
    if opcode == 0x08 || opcode == 0x09 {
        s.wrapping_add(signed_immediate(instruction))
    } else if opcode == 0x0a {
        if signed_less(s, signed_immediate(instruction)) {
            1
        } else {
            0
        }
    } else if opcode == 0x0b {
        if s < signed_immediate(instruction) {
            1
        } else {
            0
        }
    } else if opcode == 0x0c {
        s & unsigned_immediate(instruction)
    } else if opcode == 0x0d {
        s | unsigned_immediate(instruction)
    } else if opcode == 0x0e {
        s ^ unsigned_immediate(instruction)
    } else {
        unsigned_immediate(instruction) << 16
    }
}

/// Register file after an implemented register instruction.
pub open spec fn register_effect(regs: Seq<u32>, instruction: u32) -> Seq<u32> {
    let opcode = opcode_of(instruction);
    if instruction == 0 || opcode == 0x33 {
        regs
    } else if opcode == 0 {
        special_effect(regs, instruction)
    } else if opcode == 0x1c {
        special2_effect(regs, instruction)
    } else {
        with_reg(regs, rt_of(instruction), immediate_value(regs, instruction))
    }
}

// Branches.

/// Address behind the delay slot of a branch.
pub open spec fn fallthrough(pc: u32) -> u32 {
    pc.wrapping_add(8)
}

/// Target of a conditional branch that is taken.
pub open spec fn relative_target(instruction: u32, pc: u32) -> u32 {
    pc.wrapping_add(4).wrapping_add(signed_immediate(instruction) << 2)
}

/// Register file after an implemented branch: links are written before conditions are read.
pub open spec fn branch_registers(regs: Seq<u32>, instruction: u32, pc: u32) -> Seq<u32> {
    let opcode = opcode_of(instruction);
    let kind = rt_of(instruction);
    if opcode == 0 && funct_of(instruction) == 0x09 {
        with_reg(regs, rd_of(instruction), fallthrough(pc))
    } else if opcode == 1 && (kind == 0x10 || kind == 0x11) || opcode == 3 {
        with_reg(regs, 31, fallthrough(pc))
    } else {
        regs
    }
}

/// Whether a conditional branch is taken, given the register file after its link.
pub open spec fn branch_taken(regs: Seq<u32>, instruction: u32) -> bool {
    let opcode = opcode_of(instruction);
    let kind = rt_of(instruction);
    let s = reg(regs, rs_of(instruction));
    let t = reg(regs, rt_of(instruction));
    if opcode == 1 {
        if kind == 0x00 || kind == 0x10 {
            signed_less(s, 0)
        } else {
            !signed_less(s, 0)
        }
    } else if opcode == 4 {
        s == t
    } else if opcode == 5 {
        s != t
    } else if opcode == 6 {
        !signed_less(0, s)
    } else {
        signed_less(0, s)
    }
}

/// Where control goes behind the delay slot of an implemented branch.
pub open spec fn branch_target(regs: Seq<u32>, instruction: u32, pc: u32) -> u32 {
    let opcode = opcode_of(instruction);
    if opcode == 0 {
        reg(regs, rs_of(instruction))
    } else if opcode == 2 || opcode == 3 {
        (pc & 0xf000_0000) | ((instruction & 0x03ff_ffff) << 2)
    } else if branch_taken(branch_registers(regs, instruction, pc), instruction) {
        relative_target(instruction, pc)
    } else {
        fallthrough(pc)
    }
}

// Loads and stores.

/// Width of the access that a load or store makes.
pub open spec fn access_width(instruction: u32) -> Width {
    let opcode = opcode_of(instruction);
    if opcode == 0x20 || opcode == 0x24 || opcode == 0x28 {
        Width::Byte
    } else if opcode == 0x21 || opcode == 0x25 || opcode == 0x29 {
        Width::Half
    } else {
        Width::Word
    }
}

/// Loads and stores of the part of a word that lies on one side of an address.
pub open spec fn partial_word(instruction: u32) -> bool {
    let opcode = opcode_of(instruction);
    opcode == 0x22 || opcode == 0x26 || opcode == 0x2a || opcode == 0x2e
}

/// Effective address of a load or store.
pub open spec fn effective_address(regs: Seq<u32>, instruction: u32) -> u32 {
    reg(regs, rs_of(instruction)).wrapping_add(signed_immediate(instruction))
}

/// Address that a load or store accesses.
pub open spec fn access_address(regs: Seq<u32>, instruction: u32) -> u32 {
    if partial_word(instruction) {
        effective_address(regs, instruction) & 0xffff_fffc
    } else {
        effective_address(regs, instruction)
    }
}

/// Whether a load or store only touches RAM or the framebuffer.
pub open spec fn natively_served(regs: Seq<u32>, instruction: u32) -> bool {
    host_address(access_address(regs, instruction), access_width(instruction)) is Some
}

/// Stores, among the loads and stores.
pub open spec fn stores(instruction: u32) -> bool {
    let opcode = opcode_of(instruction);
    0x28 <= opcode <= 0x2e || opcode == 0x38
}

/// Word that a load puts in its register, given what memory held.
pub open spec fn loaded_value(instruction: u32, memory: u32, current: u32, address: u32) -> u32 {
    let opcode = opcode_of(instruction);
    let lane = address & 3;
    if opcode == 0x20 {
        sign_extend_byte(memory)
    } else if opcode == 0x21 {
        sign_extend_half(memory)
    } else if opcode == 0x22 {
        if lane == 0 {
            (memory << 24) | (current & 0x00ff_ffff)
        } else if lane == 1 {
            (memory << 16) | (current & 0x0000_ffff)
        } else if lane == 2 {
            (memory << 8) | (current & 0x0000_00ff)
        } else {
            memory
        }
    } else if opcode == 0x26 {
        if lane == 0 {
            memory
        } else if lane == 1 {
            (memory >> 8) | (current & 0xff00_0000)
        } else if lane == 2 {
            (memory >> 16) | (current & 0xffff_0000)
        } else {
            (memory >> 24) | (current & 0xffff_ff00)
        }
    } else {
        memory
    }
}

/// Word that a store writes, given what memory held and the register.
pub open spec fn stored_value(instruction: u32, memory: u32, value: u32, address: u32) -> u32 {
    let opcode = opcode_of(instruction);
    let lane = address & 3;
    if opcode == 0x2a {
        if lane == 0 {
            (memory & 0xffff_ff00) | (value >> 24)
        } else if lane == 1 {
            (memory & 0xffff_0000) | (value >> 16)
        } else if lane == 2 {
            (memory & 0xff00_0000) | (value >> 8)
        } else {
            value
        }
    } else if opcode == 0x2e {
        if lane == 0 {
            value
        } else if lane == 1 {
            (memory & 0x0000_00ff) | (value << 8)
        } else if lane == 2 {
            (memory & 0x0000_ffff) | (value << 16)
        } else {
            (memory & 0x00ff_ffff) | (value << 24)
        }
    } else {
        value
    }
}

/// Machine after a load or store; nothing where the address is not mapped.
pub open spec fn memory_effect(machine: Machine, instruction: u32) -> Option<Machine> {
    let address = effective_address(machine.regs, instruction);
    let access = access_address(machine.regs, instruction);
    let width = access_width(instruction);
    let t = reg(machine.regs, rt_of(instruction));
    match guest_read(machine.memory, access, width) {
        None => None,
        Some(held) => if stores(instruction) {
            match guest_write(
                machine.memory,
                access,
                width,
                stored_value(instruction, held, t, address),
            ) {
                None => None,
                Some(memory) => Some(
                    Machine {
                        regs: if opcode_of(instruction) == 0x38 {
                            with_reg(machine.regs, rt_of(instruction), 1)
                        } else {
                            machine.regs
                        },
                        memory,
                    },
                ),
            }
        } else {
            Some(
                Machine {
                    regs: with_reg(
                        machine.regs,
                        rt_of(instruction),
                        loaded_value(instruction, held, t, address),
                    ),
                    memory: machine.memory,
                },
            )
        },
    }
}

// The same, executable.

/// Branches and jumps, including those that are not implemented.
pub fn is_control_flow(instruction: u32) -> (result: bool)
    ensures
        result == control_flow(instruction),
{
    let opcode: u32 = instruction >> 26;
    let funct: u32 = instruction & 0x3f;
    (1 <= opcode && opcode <= 7) || (opcode == 0 && (funct == 0x08 || funct == 0x09))
}

/// Branches and jumps that can be compiled.
pub fn lowerable_branch(instruction: u32) -> (result: bool)
    ensures
        result == supported_branch(instruction),
{
    let opcode: u32 = instruction >> 26;
    let funct: u32 = instruction & 0x3f;
    let kind: u32 = (instruction >> 16) & 0x1f;
    if opcode == 0 {
        funct == 0x08 || funct == 0x09
    } else if opcode == 1 {
        kind == 0x00 || kind == 0x01 || kind == 0x10 || kind == 0x11
    } else {
        2 <= opcode && opcode <= 7
    }
}

/// Loads and stores.
pub fn is_memory_instruction(instruction: u32) -> (result: bool)
    ensures
        result == memory_instruction(instruction),
{
    let opcode: u32 = instruction >> 26;
    (0x20 <= opcode && opcode <= 0x26) || (0x28 <= opcode && opcode <= 0x2b) || opcode == 0x2e
        || opcode == 0x30 || opcode == 0x38
}

/// Implemented instructions that only touch registers.
pub fn is_supported_register_instruction(instruction: u32) -> (result: bool)
    ensures
        result == register_instruction(instruction),
{
    if instruction == 0 {
        return true;
    }
    let opcode: u32 = instruction >> 26;
    let funct: u32 = instruction & 0x3f;
    if opcode == 0 {
        funct == 0x00 || (0x02 <= funct && funct <= 0x04) || (0x06 <= funct && funct <= 0x07) || (
        0x0a <= funct && funct <= 0x0b) || (0x0f <= funct && funct <= 0x13) || (0x18 <= funct
            && funct <= 0x1b) || (0x20 <= funct && funct <= 0x27) || (0x2a <= funct && funct
            <= 0x2b)
    } else if opcode == 0x1c {
        funct <= 0x02 || (0x04 <= funct && funct <= 0x05) || (0x20 <= funct && funct <= 0x21)
    } else {
        (0x08 <= opcode && opcode <= 0x0f) || opcode == 0x33
    }
}

/// Instructions that a compiled block may hold in a branch delay slot.
pub fn is_supported_delay_instruction(instruction: u32) -> (result: bool)
    ensures
        result == delay_instruction(instruction),
{
    !is_control_flow(instruction) && (is_memory_instruction(instruction)
        || is_supported_register_instruction(instruction))
}

} // verus!
