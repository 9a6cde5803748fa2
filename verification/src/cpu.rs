//! The interpreter.

use crate::error::SimulatorError;
use crate::isa::{
    access_address, branch_registers, branch_target, control_flow, is_control_flow,
    is_memory_instruction, is_supported_register_instruction, lemma_fields, loaded_value,
    lowerable_branch, memory_effect, memory_instruction, opcode_of, reg, register_effect,
    register_instruction, rt_of, stored_value, supported_branch, with_reg, HI_INDEX, LO_INDEX,
    Machine, REGISTER_COUNT,
};
use crate::jit::block::{
    block_exit, ends_in_branch, lemma_straight_end, pc_at, straight, straight_end,
    straight_progress, straight_step,
};
use crate::jit::ir::{divide_signed, modulo_signed};
use crate::jit::lower::Progress;
use crate::memory::{Memory, MemoryView, Width};
use vstd::prelude::*;

verus! {

/// What the interpreter does with an instruction that it does not implement.
#[derive(Clone, Copy, Debug, PartialEq, Eq, Structural)]
pub enum UnknownInstructionPolicy {
    /// Treat it as a no-op.
    Skip,
    /// Fail.
    Stop,
}

/// Program-visible registers.
#[derive(Clone, Copy, Debug, PartialEq, Eq)]
pub struct Registers {
    pub gpr: [u32; 32],
    pub hi: u32,
    pub lo: u32,
    pub pc: u32,
}

impl Registers {
    /// The register file: general registers, HI, LO.
    pub open spec fn file(&self) -> Seq<u32> {
        self.gpr@.push(self.hi).push(self.lo)
    }

    /// All registers zero but the program counter.
    pub fn new(pc: u32) -> (registers: Registers)
        ensures
            registers.pc == pc,
            registers.file() == Seq::new(REGISTER_COUNT as nat, |i: int| 0u32),
    {
        let registers = Registers { gpr: [0u32; 32], hi: 0, lo: 0, pc };
        assert(registers.file() =~= Seq::new(REGISTER_COUNT as nat, |i: int| 0u32));
        registers
    }

    /// Reads a general register.
    pub fn read(&self, index: usize) -> (value: u32)
        requires
            index < 32,
        ensures
            value == reg(self.file(), index as int),
    {
        if index == 0 {
            0
        } else {
            self.gpr[index]
        }
    }

    /// Writes a general register; register zero stays as it is.
    pub fn write(&mut self, index: usize, value: u32)
        requires
            index < 32,
        ensures
            final(self).file() == with_reg(old(self).file(), index as int, value),
            final(self).pc == old(self).pc,
    {
        if index != 0 {
            self.gpr[index] = value;
            assert(self.file() =~= old(self).file().update(index as int, value));
        }
    }

    /// Writes HI and LO.
    fn write_pair(&mut self, hi: u32, lo: u32)
        ensures
            final(self).file() == old(self).file().update(LO_INDEX as int, lo).update(
                HI_INDEX as int,
                hi,
            ),
            final(self).pc == old(self).pc,
    {
        self.hi = hi;
        self.lo = lo;
        assert(self.file() =~= old(self).file().update(LO_INDEX as int, lo).update(
            HI_INDEX as int,
            hi,
        ));
    }

    /// The register file as a vector.
    pub fn to_file(&self) -> (file: Vec<u32>)
        ensures
            file@ == self.file(),
    {
        let mut file: Vec<u32> = Vec::new();
        let mut index: usize = 0;
        while index < 32
            invariant
                index <= 32,
                file@.len() == index,
                forall|i: int| 0 <= i < index ==> file@[i] == self.gpr@[i],
            decreases 32 - index,
        {
            file.push(self.gpr[index]);
            index = index + 1;
        }
        file.push(self.hi);
        file.push(self.lo);
        assert(file@ =~= self.file());
        file
    }

    /// Takes over a register file.
    pub fn set_file(&mut self, file: &Vec<u32>)
        requires
            file@.len() == REGISTER_COUNT,
        ensures
            final(self).file() == file@,
            final(self).pc == old(self).pc,
    {
        let mut index: usize = 0;
        while index < 32
            invariant
                index <= 32,
                file@.len() == REGISTER_COUNT,
                self.pc == old(self).pc,
                forall|i: int| 0 <= i < index ==> file@[i] == self.gpr@[i],
            decreases 32 - index,
        {
            self.gpr[index] = file[index];
            index = index + 1;
        }
        self.hi = file[HI_INDEX];
        self.lo = file[LO_INDEX];
        assert(self.file() =~= file@);
    }
}

/// Registers between two instructions, with the target of a branch whose delay
/// slot comes next.
#[verifier::ext_equal]
pub struct CpuState {
    pub regs: Seq<u32>,
    pub pc: u32,
    pub delayed: Option<u32>,
}

/// Result of interpreting an instruction.
#[verifier::ext_equal]
pub enum Interpreted {
    Done(CpuState, MemoryView),
    Unmapped(u32),
    Unknown,
}

/// Where control goes behind the current instruction.
pub open spec fn next_pc(state: CpuState) -> u32 {
    match state.delayed {
        Some(target) => target,
        None => state.pc.wrapping_add(4),
    }
}

/// Effect of one instruction.
pub open spec fn interpret(
    state: CpuState,
    memory: MemoryView,
    instruction: u32,
    policy: UnknownInstructionPolicy,
) -> Interpreted {
    let pc = next_pc(state);
    if control_flow(instruction) && supported_branch(instruction) {
        Interpreted::Done(
            CpuState {
                regs: branch_registers(state.regs, instruction, state.pc),
                pc,
                delayed: Some(branch_target(state.regs, instruction, state.pc)),
            },
            memory,
        )
    } else if memory_instruction(instruction) {
        match memory_effect(Machine { regs: state.regs, memory }, instruction) {
            Some(after) => Interpreted::Done(
                CpuState { regs: after.regs, pc, delayed: None },
                after.memory,
            ),
            None => Interpreted::Unmapped(access_address(state.regs, instruction)),
        }
    } else if register_instruction(instruction) {
        Interpreted::Done(
            CpuState { regs: register_effect(state.regs, instruction), pc, delayed: None },
            memory,
        )
    } else if policy == UnknownInstructionPolicy::Skip {
        Interpreted::Done(CpuState { regs: state.regs, pc, delayed: None }, memory)
    } else {
        Interpreted::Unknown
    }
}

/// One guest processor context.
#[derive(Clone, Copy, Debug)]
pub struct Cpu {
    pub regs: Registers,
    pub instruction_count: u64,
    pub branch_delay: bool,
    pub branch_target: u32,
    pub running: bool,
    pub unknown_instruction_policy: UnknownInstructionPolicy,
}

impl Cpu {
    /// The interpreter's view of this context.
    pub open spec fn state(&self) -> CpuState {
        CpuState {
            regs: self.regs.file(),
            pc: self.regs.pc,
            delayed: if self.branch_delay {
                Some(self.branch_target)
            } else {
                None
            },
        }
    }

    /// Whether two contexts differ at most in what an instruction changes.
    pub open spec fn same_control(&self, other: &Cpu) -> bool {
        &&& self.instruction_count == other.instruction_count
        &&& self.running == other.running
        &&& self.unknown_instruction_policy == other.unknown_instruction_policy
    }

    /// Whether no instruction has run, and unknown ones will be skipped.
    pub open spec fn is_fresh(&self) -> bool {
        &&& self.instruction_count == 0
        &&& !self.branch_delay
        &&& self.branch_target == 0
        &&& self.unknown_instruction_policy == UnknownInstructionPolicy::Skip
    }

    /// Whether this is a stopped context at an address, with all registers at zero.
    pub open spec fn is_new(&self, pc: u32) -> bool {
        &&& self.is_fresh()
        &&& self.regs.pc == pc
        &&& self.regs.file() == Seq::new(REGISTER_COUNT as nat, |i: int| 0u32)
        &&& !self.running
    }

    /// A stopped context.
    pub fn new(pc: u32) -> (cpu: Cpu)
        ensures
            cpu.is_new(pc),
    {
        Cpu {
            regs: Registers::new(pc),
            instruction_count: 0,
            branch_delay: false,
            branch_target: 0,
            running: false,
            unknown_instruction_policy: UnknownInstructionPolicy::Skip,
        }
    }

    /// Lets the context run.
    pub fn start(&mut self)
        ensures
            *final(self) == (Cpu { running: true, ..*old(self) }),
    {
        self.running = true;
    }

    /// Halts the context.
    pub fn stop(&mut self)
        ensures
            *final(self) == (Cpu { running: false, ..*old(self) }),
    {
        self.running = false;
    }

    /// Whether the context runs.
    pub fn is_running(&self) -> (running: bool)
        ensures
            running == self.running,
    {
        self.running
    }

    /// Sets what happens at an instruction that is not known.
    pub fn set_unknown_instruction_policy(&mut self, policy: UnknownInstructionPolicy)
        ensures
            *final(self) == (Cpu { unknown_instruction_policy: policy, ..*old(self) }),
    {
        self.unknown_instruction_policy = policy;
    }

    /// Counts completed instructions.
    pub fn account_instructions(&mut self, completed: u64)
        ensures
            *final(self) == (Cpu {
                instruction_count: old(self).instruction_count.wrapping_add(completed),
                ..*old(self)
            }),
    {
        self.instruction_count = self.instruction_count.wrapping_add(completed);
    }

    /// Interprets one instruction without counting it. Returns whether the context runs.
    pub fn step_fetched_unaccounted(&mut self, instruction: u32, memory: &mut Memory) -> (result:
        Result<bool, SimulatorError>)
        requires
            old(memory).wf(),
        ensures
            final(memory).wf(),
            final(memory).heap_next == old(memory).heap_next,
            final(self).same_control(old(self)),
            !old(self).running ==> {
                &&& *final(self) == *old(self)
                &&& final(memory)@ == old(memory)@
                &&& result == Ok::<bool, SimulatorError>(false)
            },
            old(self).running ==> match interpret(
                old(self).state(),
                old(memory)@,
                instruction,
                old(self).unknown_instruction_policy,
            ) {
                Interpreted::Done(state, after) => {
                    &&& result == Ok::<bool, SimulatorError>(true)
                    &&& final(self).state() == state
                    &&& final(memory)@ == after
                },
                Interpreted::Unmapped(address) => {
                    &&& result == Err::<bool, SimulatorError>(
                        SimulatorError::UnmappedAddress { address },
                    )
                    &&& *final(self) == *old(self)
                    &&& final(memory)@ == old(memory)@
                },
                Interpreted::Unknown => {
                    &&& result == Err::<bool, SimulatorError>(
                        SimulatorError::UnknownInstruction { instruction },
                    )
                    &&& *final(self) == *old(self)
                    &&& final(memory)@ == old(memory)@
                },
            },
    {
        if !self.running {
            return Ok(false);
        }
        let pc: u32 = self.regs.pc;
        let next: u32 = if self.branch_delay {
            self.branch_target
        } else {
            pc.wrapping_add(4)
        };
        if is_control_flow(instruction) && lowerable_branch(instruction) {
            let target: u32 = execute_branch(&mut self.regs, instruction, pc);
            self.branch_delay = true;
            self.branch_target = target;
        } else if is_memory_instruction(instruction) {
            match execute_memory(&mut self.regs, memory, instruction) {
                Ok(_) => {},
                Err(error) => {
                    return Err(error);
                },
            }
            self.branch_delay = false;
        } else if is_supported_register_instruction(instruction) {
            execute_register(&mut self.regs, instruction);
            self.branch_delay = false;
        } else {
            match self.unknown_instruction_policy {
                UnknownInstructionPolicy::Skip => {
                    self.branch_delay = false;
                },
                UnknownInstructionPolicy::Stop => {
                    return Err(SimulatorError::UnknownInstruction { instruction });
                },
            }
        }
        self.regs.pc = next;
        Ok(true)
    }
}

/// Executes an implemented branch up to its delay slot. Returns its target.
fn execute_branch(regs: &mut Registers, instruction: u32, pc: u32) -> (target: u32)
    requires
        control_flow(instruction),
        supported_branch(instruction),
    ensures
        final(regs).file() == branch_registers(old(regs).file(), instruction, pc),
        final(regs).pc == old(regs).pc,
        target == branch_target(old(regs).file(), instruction, pc),
{
    proof {
        lemma_fields(instruction);
    }
    let opcode: u32 = instruction >> 26;
    let rs: usize = ((instruction >> 21) & 0x1f) as usize;
    let rt: usize = ((instruction >> 16) & 0x1f) as usize;
    let rd: usize = ((instruction >> 11) & 0x1f) as usize;
    let after: u32 = pc.wrapping_add(8);
    let taken: u32 = pc.wrapping_add(4).wrapping_add((instruction as i16 as i32 as u32) << 2);
    if opcode == 0 {
        let target: u32 = regs.read(rs);
        if instruction & 0x3f == 0x09 {
            regs.write(rd, after);
        }
        return target;
    }
    if opcode == 2 || opcode == 3 {
        if opcode == 3 {
            regs.write(31, after);
        }
        return (pc & 0xf000_0000) | ((instruction & 0x03ff_ffff) << 2);
    }
    if opcode == 1 && (rt == 0x10 || rt == 0x11) {
        regs.write(31, after);
    }
    let s: u32 = regs.read(rs);
    let t: u32 = regs.read(rt);
    let condition: bool = if opcode == 1 {
        if rt == 0x00 || rt == 0x10 {
            (s as i32) < (0u32 as i32)
        } else {
            !((s as i32) < (0u32 as i32))
        }
    } else if opcode == 4 {
        s == t
    } else if opcode == 5 {
        s != t
    } else if opcode == 6 {
        !((0u32 as i32) < (s as i32))
    } else {
        (0u32 as i32) < (s as i32)
    };
    if condition {
        taken
    } else {
        after
    }
}

/// Executes a load or store.
fn execute_memory(regs: &mut Registers, memory: &mut Memory, instruction: u32) -> (result: Result<
    (),
    SimulatorError,
>)
    requires
        old(memory).wf(),
        memory_instruction(instruction),
    ensures
        final(memory).wf(),
        final(memory).heap_next == old(memory).heap_next,
        final(regs).pc == old(regs).pc,
        match memory_effect(
            Machine { regs: old(regs).file(), memory: old(memory)@ },
            instruction,
        ) {
            Some(after) => {
                &&& result is Ok
                &&& final(regs).file() == after.regs
                &&& final(memory)@ == after.memory
            },
            None => {
                &&& result == Err::<(), SimulatorError>(
                    SimulatorError::UnmappedAddress {
                        address: access_address(old(regs).file(), instruction),
                    },
                )
                &&& *final(regs) == *old(regs)
                &&& final(memory)@ == old(memory)@
            },
        },
{
    proof {
        lemma_fields(instruction);
    }
    let opcode: u32 = instruction >> 26;
    let rs: usize = ((instruction >> 21) & 0x1f) as usize;
    let rt: usize = ((instruction >> 16) & 0x1f) as usize;
    let address: u32 = regs.read(rs).wrapping_add(instruction as i16 as i32 as u32);
    let access: u32 = if opcode == 0x22 || opcode == 0x26 || opcode == 0x2a || opcode == 0x2e {
        address & 0xffff_fffc
    } else {
        address
    };
    let width = if opcode == 0x20 || opcode == 0x24 || opcode == 0x28 {
        Width::Byte
    } else if opcode == 0x21 || opcode == 0x25 || opcode == 0x29 {
        Width::Half
    } else {
        Width::Word
    };
    let held: u32 = match memory.read(access, width) {
        Ok(held) => held,
        Err(error) => {
            return Err(error);
        },
    };
    let t: u32 = regs.read(rt);
    if (0x28 <= opcode && opcode <= 0x2e) || opcode == 0x38 {
        let value: u32 = store_word(instruction, held, t, address);
        match memory.write(access, width, value) {
            Ok(_) => {},
            Err(error) => {
                return Err(error);
            },
        }
        if opcode == 0x38 {
            regs.write(rt, 1);
        }
    } else {
        let value: u32 = load_word(instruction, held, t, address);
        regs.write(rt, value);
    }
    Ok(())
}

fn load_word(instruction: u32, memory: u32, current: u32, address: u32) -> (value: u32)
    ensures
        value == loaded_value(instruction, memory, current, address),
{
    let opcode: u32 = instruction >> 26;
    let lane: u32 = address & 3;
    if opcode == 0x20 {
        memory as u8 as i8 as i32 as u32
    } else if opcode == 0x21 {
        memory as u16 as i16 as i32 as u32
    } else if opcode == 0x22 {
        if lane == 0 {
            (memory << 24) | (current & 0x00ff_ffff)
        } else if lane == 1 {
            (memory << 16) | (current & 0x0000_ffff)
        } else if lane == 2 {
            (memory << 8) | (current & 0x0000_00ff)
        } else {
            memory
        }
    } else if opcode == 0x26 {
        if lane == 0 {
            memory
        } else if lane == 1 {
            (memory >> 8) | (current & 0xff00_0000)
        } else if lane == 2 {
            (memory >> 16) | (current & 0xffff_0000)
        } else {
            (memory >> 24) | (current & 0xffff_ff00)
        }
    } else {
        memory
    }
}

fn store_word(instruction: u32, memory: u32, value: u32, address: u32) -> (result: u32)
    ensures
        result == stored_value(instruction, memory, value, address),
{
    let opcode: u32 = instruction >> 26;
    let lane: u32 = address & 3;
    if opcode == 0x2a {
        if lane == 0 {
            (memory & 0xffff_ff00) | (value >> 24)
        } else if lane == 1 {
            (memory & 0xffff_0000) | (value >> 16)
        } else if lane == 2 {
            (memory & 0xff00_0000) | (value >> 8)
        } else {
            value
        }
    } else if opcode == 0x2e {
        if lane == 0 {
            value
        } else if lane == 1 {
            (memory & 0x0000_00ff) | (value << 8)
        } else if lane == 2 {
            (memory & 0x0000_ffff) | (value << 16)
        } else {
            (memory & 0x00ff_ffff) | (value << 24)
        }
    } else {
        value
    }
}

/// Executes an implemented register instruction.
fn execute_register(regs: &mut Registers, instruction: u32)
    requires
        register_instruction(instruction),
    ensures
        final(regs).file() == register_effect(old(regs).file(), instruction),
        final(regs).pc == old(regs).pc,
{
    let opcode: u32 = instruction >> 26;
    if instruction == 0 || opcode == 0x33 {
        return ;
    }
    if opcode == 0 {
        execute_special(regs, instruction);
    } else if opcode == 0x1c {
        execute_special2(regs, instruction);
    } else {
        execute_immediate(regs, instruction);
    }
}

fn execute_special(regs: &mut Registers, instruction: u32)
    requires
        instruction != 0,
        opcode_of(instruction) == 0,
        register_instruction(instruction),
    ensures
        final(regs).file() == crate::isa::special_effect(old(regs).file(), instruction),
        final(regs).pc == old(regs).pc,
{
    proof {
        lemma_fields(instruction);
    }
    let funct: u32 = instruction & 0x3f;
    let s: u32 = regs.read(((instruction >> 21) & 0x1f) as usize);
    let t: u32 = regs.read(((instruction >> 16) & 0x1f) as usize);
    let d: u32 = regs.read(((instruction >> 11) & 0x1f) as usize);
    let rd: usize = ((instruction >> 11) & 0x1f) as usize;
    let shamt: u32 = (instruction >> 6) & 0x1f;
    proof {
        crate::isa::lemma_shift_amount(s);
        assert(regs.file().update(HI_INDEX as int, s) =~= regs.gpr@.push(s).push(regs.lo));
        assert(regs.file().update(LO_INDEX as int, s) =~= regs.gpr@.push(regs.hi).push(s));
    }
    if funct == 0x0f {
        return ;
    }
    if funct == 0x11 {
        regs.hi = s;
        return ;
    }
    if funct == 0x13 {
        regs.lo = s;
        return ;
    }
    if funct == 0x18 || funct == 0x19 {
        let product: u64 = if funct == 0x18 {
            (s as i32 as i64 as u64).wrapping_mul(t as i32 as i64 as u64)
        } else {
            (s as u64).wrapping_mul(t as u64)
        };
        regs.write_pair((product >> 32) as u32, product as u32);
        return ;
    }
    if funct == 0x1a {
        if !(t == 0 || (s == 0x8000_0000 && t == 0xffff_ffff)) {
            regs.write_pair(modulo_signed(s, t), divide_signed(s, t));
        }
        return ;
    }
    if funct == 0x1b {
        if t != 0 {
            regs.write_pair(s % t, s / t);
        }
        return ;
    }
    let value: u32 = if funct == 0x00 {
        t << shamt
    } else if funct == 0x02 {
        t >> shamt
    } else if funct == 0x03 {
        ((t as i32) >> shamt) as u32
    } else if funct == 0x04 {
        t << (s & 0x1f)
    } else if funct == 0x06 {
        t >> (s & 0x1f)
    } else if funct == 0x07 {
        ((t as i32) >> (s & 0x1f)) as u32
    } else if funct == 0x0a {
        if t == 0 {
            s
        } else {
            d
        }
    } else if funct == 0x0b {
        if t != 0 {
            s
        } else {
            d
        }
    } else if funct == 0x10 {
        regs.hi
    } else if funct == 0x12 {
        regs.lo
    } else if funct == 0x20 || funct == 0x21 {
        s.wrapping_add(t)
    } else if funct == 0x22 || funct == 0x23 {
        s.wrapping_sub(t)
    } else if funct == 0x24 {
        s & t
    } else if funct == 0x25 {
        s | t
    } else if funct == 0x26 {
        s ^ t
    } else if funct == 0x27 {
        !(s | t)
    } else if funct == 0x2a {
        if (s as i32) < (t as i32) {
            1
        } else {
            0
        }
    } else {
        if s < t {
            1
        } else {
            0
        }
    };
    regs.write(rd, value);
}

fn execute_special2(regs: &mut Registers, instruction: u32)
    requires
        instruction != 0,
        opcode_of(instruction) == 0x1c,
        register_instruction(instruction),
    ensures
        final(regs).file() == crate::isa::special2_effect(old(regs).file(), instruction),
        final(regs).pc == old(regs).pc,
{
    proof {
        lemma_fields(instruction);
    }
    let funct: u32 = instruction & 0x3f;
    let s: u32 = regs.read(((instruction >> 21) & 0x1f) as usize);
    let t: u32 = regs.read(((instruction >> 16) & 0x1f) as usize);
    let rd: usize = ((instruction >> 11) & 0x1f) as usize;
    if funct == 0x02 {
        regs.write(rd, s.wrapping_mul(t));
    } else if funct == 0x20 {
        regs.write(rd, s.leading_zeros());
    } else if funct == 0x21 {
        regs.write(rd, (!s).leading_zeros());
    } else {
        let product: u64 = (s as u64).wrapping_mul(t as u64);
        let sum: u64 = ((regs.hi as u64) << 32) | (regs.lo as u64);
        let result: u64 = if funct == 0x00 || funct == 0x01 {
            sum.wrapping_add(product)
        } else {
            sum.wrapping_sub(product)
        };
        regs.write_pair((result >> 32) as u32, result as u32);
    }
}

fn execute_immediate(regs: &mut Registers, instruction: u32)
    requires
        instruction != 0,
        0x08 <= opcode_of(instruction) <= 0x0f,
    ensures
        final(regs).file() == with_reg(
            old(regs).file(),
            rt_of(instruction),
            crate::isa::immediate_value(old(regs).file(), instruction),
        ),
        final(regs).pc == old(regs).pc,
{
    proof {
        lemma_fields(instruction);
    }
    let opcode: u32 = instruction >> 26;
    let s: u32 = regs.read(((instruction >> 21) & 0x1f) as usize);
    let rt: usize = ((instruction >> 16) & 0x1f) as usize;
    let signed: u32 = instruction as i16 as i32 as u32;
    let unsigned: u32 = instruction as u16 as u32;
    let value: u32 = if opcode == 0x08 || opcode == 0x09 {
        s.wrapping_add(signed)
    } else if opcode == 0x0a {
        if (s as i32) < (signed as i32) {
            1
        } else {
            0
        }
    } else if opcode == 0x0b {
        if s < signed {
            1
        } else {
            0
        }
    } else if opcode == 0x0c {
        s & unsigned
    } else if opcode == 0x0d {
        s | unsigned
    } else if opcode == 0x0e {
        s ^ unsigned
    } else {
        unsigned << 16
    };
    regs.write(rt, value);
}

/// Effect of the first `count` instructions of a block, one after the other.
pub open spec fn interpret_block(
    state: CpuState,
    memory: MemoryView,
    code: Seq<u32>,
    count: int,
    policy: UnknownInstructionPolicy,
) -> Interpreted
    decreases count,
{
    if count <= 0 {
        Interpreted::Done(state, memory)
    } else {
        match interpret_block(state, memory, code, count - 1, policy) {
            Interpreted::Done(state, memory) => interpret(state, memory, code[count - 1], policy),
            failed => failed,
        }
    }
}

/// Instructions of a block follow each other at a distance of one word.
proof fn lemma_pc_at(start: u32, index: int)
    requires
        0 <= index < 0x3fff_ffff,
    ensures
        pc_at(start, index + 1) == pc_at(start, index).wrapping_add(4),
        pc_at(start, 0) == start,
{
    assert((index as u32).wrapping_mul(4) == index * 4);
    assert(((index + 1) as u32).wrapping_mul(4) == index * 4 + 4);
}

/// A straight instruction that does not leave a block does what the interpreter does.
proof fn lemma_straight_step(
    state: CpuState,
    memory: MemoryView,
    instruction: u32,
    policy: UnknownInstructionPolicy,
)
    requires
        straight(instruction),
        state.regs.len() == REGISTER_COUNT,
    ensures
        ({
            let machine = Machine { regs: state.regs, memory };
            let step = straight_step(machine, instruction, state.pc, 0);
            step matches Progress::Inside(reached) ==> {
                &&& interpret(state, memory, instruction, policy) == Interpreted::Done(
                    CpuState { regs: reached.regs, pc: next_pc(state), delayed: None },
                    reached.memory,
                )
                &&& reached.regs.len() == REGISTER_COUNT
            }
        }),
{
    lemma_fields(instruction);
}

/// The straight part of a block does what the interpreter does.
proof fn lemma_straight_progress(
    start: u32,
    code: Seq<u32>,
    count: int,
    machine: Machine,
    policy: UnknownInstructionPolicy,
)
    requires
        0 <= count <= straight_end(code, 0),
        code.len() < 0x3fff_ffff,
        machine.regs.len() == REGISTER_COUNT,
    ensures
        ({
            let state = CpuState { regs: machine.regs, pc: start, delayed: None };
            match straight_progress(start, code, count, machine) {
                Progress::Inside(reached) => {
                    &&& reached.regs.len() == REGISTER_COUNT
                    &&& interpret_block(state, machine.memory, code, count, policy)
                        == Interpreted::Done(
                        CpuState { regs: reached.regs, pc: pc_at(start, count), delayed: None },
                        reached.memory,
                    )
                },
                Progress::Left(exit) => {
                    &&& exit.completed < count
                    &&& interpret_block(state, machine.memory, code, exit.completed as int, policy)
                        == Interpreted::Done(
                        CpuState { regs: exit.regs, pc: exit.pc, delayed: None },
                        exit.memory,
                    )
                },
            }
        }),
    decreases count,
{
    lemma_straight_end(code, 0);
    lemma_pc_at(start, 0);
    if count > 0 {
        lemma_straight_progress(start, code, count - 1, machine, policy);
        lemma_pc_at(start, count - 1);
        lemma_before_end_is_straight(code, 0, count - 1);
        match straight_progress(start, code, count - 1, machine) {
            Progress::Inside(reached) => {
                let state = CpuState {
                    regs: reached.regs,
                    pc: pc_at(start, count - 1),
                    delayed: None,
                };
                lemma_straight_step(state, reached.memory, code[count - 1], policy);
            },
            Progress::Left(_) => {},
        }
    }
}

/// Every instruction in front of the end is straight.
proof fn lemma_before_end_is_straight(code: Seq<u32>, from: int, index: int)
    requires
        0 <= from <= index < straight_end(code, from),
    ensures
        index < code.len(),
        straight(code[index]),
    decreases index - from,
{
    if from < index {
        lemma_before_end_is_straight(code, from + 1, index);
    }
}

/// A block leaves the machine as the interpreter does after as many instructions
/// as the block reports completed, with no delay slot pending.
pub proof fn law_block_matches_interpreter(
    start: u32,
    code: Seq<u32>,
    machine: Machine,
    policy: UnknownInstructionPolicy,
)
    requires
        machine.regs.len() == REGISTER_COUNT,
        code.len() < 0x3fff_ffff,
    ensures
        ({
            let exit = block_exit(start, code, machine);
            let state = CpuState { regs: machine.regs, pc: start, delayed: None };
            &&& exit.completed <= code.len()
            &&& interpret_block(state, machine.memory, code, exit.completed as int, policy)
                == Interpreted::Done(
                CpuState { regs: exit.regs, pc: exit.pc, delayed: None },
                exit.memory,
            )
        }),
{
    let end = straight_end(code, 0);
    let entry = CpuState { regs: machine.regs, pc: start, delayed: None };
    lemma_straight_end(code, 0);
    lemma_straight_progress(start, code, end, machine, policy);
    match straight_progress(start, code, end, machine) {
        Progress::Left(_) => {},
        Progress::Inside(reached) => {
            if ends_in_branch(code) {
                let pc = pc_at(start, end);
                let branch = code[end];
                let delay = code[end + 1];
                lemma_fields(branch);
                let linked = CpuState {
                    regs: branch_registers(reached.regs, branch, pc),
                    pc: pc.wrapping_add(4),
                    delayed: Some(branch_target(reached.regs, branch, pc)),
                };
                assert(interpret_block(entry, machine.memory, code, end + 1, policy)
                    == Interpreted::Done(linked, reached.memory));
                lemma_straight_step(linked, reached.memory, delay, policy);
                assert(interpret_block(entry, machine.memory, code, end + 2, policy) == interpret(
                    linked,
                    reached.memory,
                    delay,
                    policy,
                ));
                match straight_step(
                    Machine { regs: linked.regs, memory: reached.memory },
                    delay,
                    pc.wrapping_add(4),
                    end as u64,
                ) {
                    Progress::Inside(done) => {},
                    Progress::Left(_) => {},
                }
            }
        },
    }
}

} // verus!
