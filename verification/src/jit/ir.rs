//! The straight-line code that guest blocks are translated to.
//!
//! Each operation defines one value, named by its position. Word operations
//! read the low 32 bits of their operands. An access to memory first asks for
//! a host address with [`Op::Locate`], which leaves the block where the guest
//! address is served neither by RAM nor by the framebuffer.

use crate::isa::{
    low_word, quotient_signed, remainder_signed, shift_right_signed, sign_extend_byte,
    sign_extend_half, sign_extend_word, signed_division_undefined, signed_less, HI_INDEX,
    REGISTER_COUNT,
};
use crate::memory::{FRAMEBUFFER_HOST_BASE, Memory, MemoryView, Width};
use vstd::prelude::*;

verus! {

/// Position of the operation that defines a value.
pub type Value = usize;

/// Word operations with two operands.
#[derive(Clone, Copy, Debug, PartialEq, Eq, Structural)]
pub enum BinaryOp {
    Add,
    Sub,
    Mul,
    And,
    Or,
    Xor,
    ShiftLeft,
    ShiftRight,
    ShiftRightSigned,
    DivideSigned,
    RemainderSigned,
    Divide,
    Remainder,
}

/// 64-bit operations with two operands.
#[derive(Clone, Copy, Debug, PartialEq, Eq, Structural)]
pub enum WideOp {
    Add,
    Sub,
    Mul,
    Or,
}

/// Operations with one operand.
#[derive(Clone, Copy, Debug, PartialEq, Eq, Structural)]
pub enum UnaryOp {
    /// Complement of a word.
    Not,
    /// Leading zero bits of a word.
    CountLeadingZeros,
    /// A narrow value as a word.
    ZeroExtend,
    /// A loaded byte as a signed word.
    SignExtendByte,
    /// A loaded half-word as a signed word.
    SignExtendHalf,
    /// A word as 64 bits.
    Widen,
    /// A signed word as 64 bits.
    WidenSigned,
    /// 64 bits shifted left by a word.
    WideShiftLeft,
    /// 64 bits shifted right by a word.
    WideShiftRight,
    /// The low word of 64 bits.
    Narrow,
}

/// Comparisons of words.
#[derive(Clone, Copy, Debug, PartialEq, Eq, Structural)]
pub enum Condition {
    Equal,
    NotEqual,
    SignedLess,
    SignedLessOrEqual,
    SignedGreater,
    SignedGreaterOrEqual,
    Less,
    LessOrEqual,
}

/// Program counter on leaving a block.
#[derive(Clone, Copy, Debug, PartialEq, Eq, Structural)]
pub enum ExitPc {
    Constant(u32),
    Computed(Value),
}

/// How a block is left: the registers to write back, the program counter, and
/// the number of guest instructions that were completed.
#[derive(Clone, Debug)]
pub struct ExitPlan {
    pub stores: Vec<Option<Value>>,
    pub pc: ExitPc,
    pub completed: u64,
}

/// One operation.
#[derive(Clone, Debug)]
pub enum Op {
    /// A word.
    Constant(u32),
    /// A register as it was on entry.
    ReadRegister(usize),
    Unary(UnaryOp, Value),
    Binary(BinaryOp, Value, Value),
    Wide(WideOp, Value, Value),
    /// One where the comparison holds, else zero.
    Compare(Condition, Value, Value),
    /// The second operand where the first is not zero, else the third.
    Select(Value, Value, Value),
    /// Host address in RAM or in the framebuffer; else the block is left.
    Locate {
        in_ram: Value,
        ram_offset: Value,
        in_framebuffer: Value,
        framebuffer_offset: Value,
        exit: ExitPlan,
    },
    /// The value at a host address, zero-extended.
    Load(Width, Value),
    /// Stores the low bytes of a word at a host address.
    Store(Width, Value, Value),
}

/// A translated guest block.
#[derive(Clone, Debug)]
pub struct LoweredBlock {
    pub ops: Vec<Op>,
    pub exit: ExitPlan,
    pub instruction_count: usize,
}

/// Machine on leaving a block.
#[verifier::ext_equal]
pub struct BlockExit {
    pub regs: Seq<u32>,
    pub pc: u32,
    pub memory: MemoryView,
    pub completed: u64,
}

/// Progress of a block: the values defined so far, or the exit taken.
#[verifier::ext_equal]
pub enum Run {
    Running { values: Seq<u64>, memory: MemoryView },
    Left(BlockExit),
}

/// The value at a position; zero where there is none.
pub open spec fn value_at(values: Seq<u64>, value: Value) -> u64 {
    if value < values.len() {
        values[value as int]
    } else {
        0
    }
}

/// The word at a position.
pub open spec fn word_at(values: Seq<u64>, value: Value) -> u32 {
    low_word(value_at(values, value))
}

/// A truth value as a word.
pub open spec fn flag(condition: bool) -> u64 {
    if condition {
        1
    } else {
        0
    }
}

/// What an operation on two words gives.
pub open spec fn binary_result(op: BinaryOp, left: u32, right: u32) -> u32 {
    match op {
        BinaryOp::Add => left.wrapping_add(right),
        BinaryOp::Sub => left.wrapping_sub(right),
        BinaryOp::Mul => left.wrapping_mul(right),
        BinaryOp::And => left & right,
        BinaryOp::Or => left | right,
        BinaryOp::Xor => left ^ right,
        BinaryOp::ShiftLeft => left << (right & 0x1f),
        BinaryOp::ShiftRight => left >> (right & 0x1f),
        BinaryOp::ShiftRightSigned => shift_right_signed(left, right & 0x1f),
        BinaryOp::DivideSigned => if signed_division_undefined(left, right) {
            0
        } else {
            quotient_signed(left, right)
        },
        BinaryOp::RemainderSigned => if signed_division_undefined(left, right) {
            0
        } else {
            remainder_signed(left, right)
        },
        BinaryOp::Divide => if right == 0 {
            0
        } else {
            (left / right) as u32
        },
        BinaryOp::Remainder => if right == 0 {
            0
        } else {
            (left % right) as u32
        },
    }
}

/// What an operation on two double words gives.
pub open spec fn wide_result(op: WideOp, left: u64, right: u64) -> u64 {
    match op {
        WideOp::Add => left.wrapping_add(right),
        WideOp::Sub => left.wrapping_sub(right),
        WideOp::Mul => left.wrapping_mul(right),
        WideOp::Or => left | right,
    }
}

/// What an operation on one value gives.
pub open spec fn unary_result(op: UnaryOp, operand: u64) -> u64 {
    let word = low_word(operand);
    match op {
        UnaryOp::Not => (!word) as u64,
        UnaryOp::CountLeadingZeros => vstd::std_specs::bits::u32_leading_zeros(word) as u64,
        UnaryOp::ZeroExtend => word as u64,
        UnaryOp::SignExtendByte => sign_extend_byte(word) as u64,
        UnaryOp::SignExtendHalf => sign_extend_half(word) as u64,
        UnaryOp::Widen => word as u64,
        UnaryOp::WidenSigned => sign_extend_word(word),
        UnaryOp::WideShiftLeft => operand << 32,
        UnaryOp::WideShiftRight => operand >> 32,
        UnaryOp::Narrow => word as u64,
    }
}

/// Whether a comparison of two words holds.
pub open spec fn compares(condition: Condition, left: u32, right: u32) -> bool {
    match condition {
        Condition::Equal => left == right,
        Condition::NotEqual => left != right,
        Condition::SignedLess => signed_less(left, right),
        Condition::SignedLessOrEqual => !signed_less(right, left),
        Condition::SignedGreater => signed_less(right, left),
        Condition::SignedGreaterOrEqual => !signed_less(left, right),
        Condition::Less => left < right,
        Condition::LessOrEqual => left <= right,
    }
}

/// Value of an operation that neither stores nor leaves the block.
pub open spec fn pure_result(
    op: Op,
    values: Seq<u64>,
    memory: MemoryView,
    regs: Seq<u32>,
) -> u64 {
    match op {
        Op::Constant(word) => word as u64,
        Op::ReadRegister(register) => if register < regs.len() {
            regs[register as int] as u64
        } else {
            0
        },
        Op::Unary(op, operand) => unary_result(op, value_at(values, operand)),
        Op::Binary(op, left, right) => binary_result(
            op,
            word_at(values, left),
            word_at(values, right),
        ) as u64,
        Op::Wide(op, left, right) => wide_result(
            op,
            value_at(values, left),
            value_at(values, right),
        ),
        Op::Compare(condition, left, right) => flag(
            compares(condition, word_at(values, left), word_at(values, right)),
        ),
        Op::Select(condition, yes, no) => if word_at(values, condition) != 0 {
            value_at(values, yes)
        } else {
            value_at(values, no)
        },
        Op::Load(width, host) => memory.load(value_at(values, host) as int, width) as u64,
        _ => 0,
    }
}

/// Machine on leaving a block through an exit plan.
pub open spec fn leave(
    plan: ExitPlan,
    values: Seq<u64>,
    memory: MemoryView,
    regs: Seq<u32>,
) -> BlockExit {
    BlockExit {
        regs: Seq::new(
            regs.len(),
            |r: int|
                if r < plan.stores@.len() {
                    match plan.stores@[r] {
                        Some(value) => word_at(values, value),
                        None => regs[r],
                    }
                } else {
                    regs[r]
                },
        ),
        pc: match plan.pc {
            ExitPc::Constant(pc) => pc,
            ExitPc::Computed(value) => word_at(values, value),
        },
        memory,
        completed: plan.completed,
    }
}

/// Effect of one operation.
pub open spec fn step(op: Op, values: Seq<u64>, memory: MemoryView, regs: Seq<u32>) -> Run {
    match op {
        Op::Locate { in_ram, ram_offset, in_framebuffer, framebuffer_offset, exit } => {
            if word_at(values, in_ram) != 0 {
                Run::Running { values: values.push(word_at(values, ram_offset) as u64), memory }
            } else if word_at(values, in_framebuffer) != 0 {
                Run::Running {
                    values: values.push(
                        (FRAMEBUFFER_HOST_BASE + word_at(values, framebuffer_offset)) as u64,
                    ),
                    memory,
                }
            } else {
                Run::Left(leave(exit, values, memory, regs))
            }
        },
        Op::Store(width, host, value) => Run::Running {
            values: values.push(0),
            memory: memory.store(value_at(values, host) as int, width, word_at(values, value)),
        },
        _ => Run::Running {
            values: values.push(pure_result(op, values, memory, regs)),
            memory,
        },
    }
}

/// Effect of a sequence of operations on a machine.
pub open spec fn run(ops: Seq<Op>, regs: Seq<u32>, memory: MemoryView) -> Run
    decreases ops.len(),
{
    if ops.len() == 0 {
        Run::Running { values: Seq::empty(), memory }
    } else {
        match run(ops.drop_last(), regs, memory) {
            Run::Running { values, memory } => step(ops.last(), values, memory, regs),
            Run::Left(exit) => Run::Left(exit),
        }
    }
}

impl LoweredBlock {
    /// Machine on leaving the block.
    pub open spec fn result(&self, regs: Seq<u32>, memory: MemoryView) -> BlockExit {
        match run(self.ops@, regs, memory) {
            Run::Running { values, memory } => leave(self.exit, values, memory, regs),
            Run::Left(exit) => exit,
        }
    }
}

// Evaluation.

fn word_of(value: u64) -> (word: u32)
    ensures
        word == low_word(value),
{
    value as u32
}

fn get(values: &Vec<u64>, value: Value) -> (result: u64)
    ensures
        result == value_at(values@, value),
{
    if value < values.len() {
        values[value]
    } else {
        0
    }
}

fn get_word(values: &Vec<u64>, value: Value) -> (result: u32)
    ensures
        result == word_at(values@, value),
{
    word_of(get(values, value))
}

fn is_negative(value: u32) -> (result: bool)
    ensures
        result == crate::isa::negative(value),
{
    value >= 0x8000_0000
}

fn absolute(value: u32) -> (result: u32)
    ensures
        result == crate::isa::magnitude(value),
{
    if value >= 0x8000_0000 {
        0xffff_ffff - value + 1
    } else {
        value
    }
}

fn negate(value: u32) -> (result: u32)
    ensures
        result == crate::isa::negated(value),
{
    if value == 0 {
        0
    } else {
        0xffff_ffff - value + 1
    }
}

/// Signed quotient, rounded towards zero.
pub fn divide_signed(numerator: u32, denominator: u32) -> (result: u32)
    requires
        denominator != 0,
    ensures
        result == quotient_signed(numerator, denominator),
{
    let quotient: u32 = absolute(numerator) / absolute(denominator);
    if is_negative(numerator) != is_negative(denominator) {
        negate(quotient)
    } else {
        quotient
    }
}

/// Signed remainder, with the sign of the numerator.
pub fn modulo_signed(numerator: u32, denominator: u32) -> (result: u32)
    requires
        denominator != 0,
    ensures
        result == remainder_signed(numerator, denominator),
{
    let remainder: u32 = absolute(numerator) % absolute(denominator);
    if is_negative(numerator) {
        negate(remainder)
    } else {
        remainder
    }
}

fn eval_binary(op: BinaryOp, left: u32, right: u32) -> (result: u32)
    ensures
        result == binary_result(op, left, right),
{
    proof {
        crate::isa::lemma_shift_amount(right);
    }
    let undefined: bool = right == 0 || (left == 0x8000_0000 && right == 0xffff_ffff);
    match op {
        BinaryOp::Add => left.wrapping_add(right),
        BinaryOp::Sub => left.wrapping_sub(right),
        BinaryOp::Mul => left.wrapping_mul(right),
        BinaryOp::And => left & right,
        BinaryOp::Or => left | right,
        BinaryOp::Xor => left ^ right,
        BinaryOp::ShiftLeft => left << (right & 0x1f),
        BinaryOp::ShiftRight => left >> (right & 0x1f),
        BinaryOp::ShiftRightSigned => ((left as i32) >> (right & 0x1f)) as u32,
        BinaryOp::DivideSigned => if undefined {
            0
        } else {
            divide_signed(left, right)
        },
        BinaryOp::RemainderSigned => if undefined {
            0
        } else {
            modulo_signed(left, right)
        },
        BinaryOp::Divide => if right == 0 {
            0
        } else {
            left / right
        },
        BinaryOp::Remainder => if right == 0 {
            0
        } else {
            left % right
        },
    }
}

fn eval_wide(op: WideOp, left: u64, right: u64) -> (result: u64)
    ensures
        result == wide_result(op, left, right),
{
    match op {
        WideOp::Add => left.wrapping_add(right),
        WideOp::Sub => left.wrapping_sub(right),
        WideOp::Mul => left.wrapping_mul(right),
        WideOp::Or => left | right,
    }
}

fn eval_unary(op: UnaryOp, operand: u64) -> (result: u64)
    ensures
        result == unary_result(op, operand),
{
    let word: u32 = word_of(operand);
    match op {
        UnaryOp::Not => (!word) as u64,
        UnaryOp::CountLeadingZeros => word.leading_zeros() as u64,
        UnaryOp::ZeroExtend => word as u64,
        UnaryOp::SignExtendByte => (word as u8 as i8 as i32 as u32) as u64,
        UnaryOp::SignExtendHalf => (word as u16 as i16 as i32 as u32) as u64,
        UnaryOp::Widen => word as u64,
        UnaryOp::WidenSigned => word as i32 as i64 as u64,
        UnaryOp::WideShiftLeft => operand << 32,
        UnaryOp::WideShiftRight => operand >> 32,
        UnaryOp::Narrow => word as u64,
    }
}

fn eval_compare(condition: Condition, left: u32, right: u32) -> (result: bool)
    ensures
        result == compares(condition, left, right),
{
    match condition {
        Condition::Equal => left == right,
        Condition::NotEqual => left != right,
        Condition::SignedLess => (left as i32) < (right as i32),
        Condition::SignedLessOrEqual => !((right as i32) < (left as i32)),
        Condition::SignedGreater => (right as i32) < (left as i32),
        Condition::SignedGreaterOrEqual => !((left as i32) < (right as i32)),
        Condition::Less => left < right,
        Condition::LessOrEqual => left <= right,
    }
}

fn eval_exit(plan: &ExitPlan, values: &Vec<u64>, regs: &mut Vec<u32>, Ghost(memory): Ghost<
    MemoryView,
>) -> (pc: u32)
    ensures
        ({
            let exit = leave(*plan, values@, memory, old(regs)@);
            &&& final(regs)@ == exit.regs
            &&& pc == exit.pc
        }),
{
    let ghost exit = leave(*plan, values@, memory, regs@);
    let mut r: usize = 0;
    while r < regs.len() && r < plan.stores.len()
        invariant
            r <= regs@.len(),
            r <= plan.stores@.len(),
            regs@.len() == old(regs)@.len(),
            exit == leave(*plan, values@, memory, old(regs)@),
            forall|i: int| 0 <= i < r ==> regs@[i] == exit.regs[i],
            forall|i: int| r <= i < regs@.len() ==> regs@[i] == old(regs)@[i],
        decreases regs@.len() - r,
    {
        if let Some(value) = plan.stores[r] {
            regs[r] = get_word(values, value);
        }
        r = r + 1;
    }
    assert(regs@ =~= exit.regs);
    match plan.pc {
        ExitPc::Constant(pc) => pc,
        ExitPc::Computed(value) => get_word(values, value),
    }
}

impl LoweredBlock {
    /// Runs the block on a register file and guest memory, without native code.
    /// Returns the program counter and the number of completed instructions.
    pub fn evaluate(&self, regs: &mut Vec<u32>, memory: &mut Memory) -> (result: (u32, u64))
        requires
            old(memory).wf(),
        ensures
            final(memory).wf(),
            final(memory).heap_next == old(memory).heap_next,
            ({
                let exit = self.result(old(regs)@, old(memory)@);
                &&& final(regs)@ == exit.regs
                &&& final(memory)@ == exit.memory
                &&& result.0 == exit.pc
                &&& result.1 == exit.completed
            }),
    {
        let mut values: Vec<u64> = Vec::new();
        let mut index: usize = 0;
        let ghost regs0 = regs@;
        let ghost memory0 = memory@;
        assert(self.ops@.take(0) =~= Seq::<Op>::empty());
        while index < self.ops.len()
            invariant
                index <= self.ops@.len(),
                regs@ == regs0,
                regs0 == old(regs)@,
                memory0 == old(memory)@,
                memory.wf(),
                memory.heap_next == old(memory).heap_next,
                run(self.ops@.take(index as int), regs0, memory0) == (Run::Running {
                    values: values@,
                    memory: memory@,
                }),
            decreases self.ops@.len() - index,
        {
            proof {
                assert(self.ops@.take(index + 1).drop_last() =~= self.ops@.take(index as int));
                assert(self.ops@.take(index + 1).last() == self.ops@[index as int]);
                assert(run(self.ops@.take(index + 1), regs0, memory0) == step(
                    self.ops@[index as int],
                    values@,
                    memory@,
                    regs0,
                ));
            }
            let result: u64 = match &self.ops[index] {
                Op::Constant(word) => *word as u64,
                Op::ReadRegister(register) => if *register < regs.len() {
                    regs[*register] as u64
                } else {
                    0
                },
                Op::Unary(op, operand) => eval_unary(*op, get(&values, *operand)),
                Op::Binary(op, left, right) => eval_binary(
                    *op,
                    get_word(&values, *left),
                    get_word(&values, *right),
                ) as u64,
                Op::Wide(op, left, right) => eval_wide(
                    *op,
                    get(&values, *left),
                    get(&values, *right),
                ),
                Op::Compare(condition, left, right) => {
                    if eval_compare(
                        *condition,
                        get_word(&values, *left),
                        get_word(&values, *right),
                    ) {
                        1
                    } else {
                        0
                    }
                },
                Op::Select(condition, yes, no) => {
                    if get_word(&values, *condition) != 0 {
                        get(&values, *yes)
                    } else {
                        get(&values, *no)
                    }
                },
                Op::Locate { in_ram, ram_offset, in_framebuffer, framebuffer_offset, exit } => {
                    if get_word(&values, *in_ram) != 0 {
                        get_word(&values, *ram_offset) as u64
                    } else if get_word(&values, *in_framebuffer) != 0 {
                        FRAMEBUFFER_HOST_BASE + get_word(&values, *framebuffer_offset) as u64
                    } else {
                        proof {
                            lemma_left_is_final(self.ops@, index + 1, regs0, memory0);
                        }
                        let pc: u32 = eval_exit(exit, &values, regs, Ghost(memory@));
                        return (pc, exit.completed);
                    }
                },
                Op::Load(width, host) => {
                    let host: u64 = get(&values, *host);
                    eval_load(memory, host, *width) as u64
                },
                Op::Store(width, host, value) => {
                    let host: u64 = get(&values, *host);
                    let word: u32 = get_word(&values, *value);
                    eval_store(memory, host, *width, word);
                    0
                },
            };
            values.push(result);
            index = index + 1;
        }
        assert(self.ops@.take(index as int) =~= self.ops@);
        let pc: u32 = eval_exit(&self.exit, &values, regs, Ghost(memory@));
        (pc, self.exit.completed)
    }
}

fn eval_load(memory: &Memory, host: u64, width: Width) -> (value: u32)
    requires
        memory.wf(),
    ensures
        value == memory@.load(host as int, width),
{
    if host <= u64::MAX - 4 {
        memory.host_load(host, width)
    } else {
        0
    }
}

fn eval_store(memory: &mut Memory, host: u64, width: Width, value: u32)
    requires
        old(memory).wf(),
    ensures
        final(memory).wf(),
        final(memory).heap_next == old(memory).heap_next,
        final(memory)@ == old(memory)@.store(host as int, width, value),
{
    if host <= u64::MAX - 4 {
        memory.host_store(host, width, value);
    }
}

/// Once a block is left, the operations behind the exit have no effect.
pub proof fn lemma_left_is_final(ops: Seq<Op>, count: int, regs: Seq<u32>, memory: MemoryView)
    requires
        0 <= count <= ops.len(),
        run(ops.take(count), regs, memory) is Left,
    ensures
        run(ops, regs, memory) == run(ops.take(count), regs, memory),
    decreases ops.len(),
{
    if count == ops.len() {
        assert(ops.take(count) =~= ops);
    } else {
        assert(ops.drop_last().take(count) =~= ops.take(count));
        lemma_left_is_final(ops.drop_last(), count, regs, memory);
    }
}

// The block of registers that native code works on: the register file, then the
// program counter.

/// Size of a register in bytes.
pub const REGISTER_BYTES: usize = 4;

/// Offset of the general registers.
pub const GPR_OFFSET: usize = 0;

pub const HI_OFFSET: usize = 128;

pub const LO_OFFSET: usize = 132;

pub const PC_OFFSET: usize = 136;

/// Where a register lies in the block of registers.
pub open spec fn register_place(register: int) -> int {
    if register < 32 {
        GPR_OFFSET + register * REGISTER_BYTES
    } else if register == HI_INDEX {
        HI_OFFSET as int
    } else {
        LO_OFFSET as int
    }
}

/// Where native code finds a register.
pub fn register_offset(register: usize) -> (offset: i32)
    requires
        register < REGISTER_COUNT,
    ensures
        offset == register_place(register as int),
{
    if register < 32 {
        (GPR_OFFSET + register * REGISTER_BYTES) as i32
    } else if register == HI_INDEX {
        HI_OFFSET as i32
    } else {
        LO_OFFSET as i32
    }
}

/// Registers lie one after the other: none overlaps another, nor the program
/// counter.
pub proof fn law_registers_do_not_overlap(first: int, second: int)
    requires
        0 <= first < second < REGISTER_COUNT,
    ensures
        register_place(first) + REGISTER_BYTES <= register_place(second),
        register_place(second) + REGISTER_BYTES <= PC_OFFSET,
{
}

} // verus!
