//! Lowering of guest instructions.
//!
//! A [`LoweringState`] holds the operations emitted so far and, for each
//! register, the value that holds it. [`tracks`] relates it to the guest: on
//! every machine, the emitted operations have reached the state that the
//! guest's own instructions reach.

use crate::isa::{
    access_address, access_width, branch_registers, branch_target, control_flow,
    effective_address, fallthrough, funct_of, is_memory_instruction,
    is_supported_register_instruction, lemma_fields, lemma_shift_amount, loaded_value, low_word,
    lowerable_branch, memory_effect, memory_instruction, natively_served, opcode_of, reg,
    register_effect, register_instruction, rt_of, stored_value, stores, supported_branch,
    with_pair, with_reg, HI_INDEX, LO_INDEX, Machine, REGISTER_COUNT,
};
use crate::jit::ir::{
    binary_result, compares, flag, leave, pure_result, run, unary_result, value_at, wide_result,
    word_at, BinaryOp, BlockExit, Condition, ExitPc, ExitPlan, Op, Run, UnaryOp, Value, WideOp,
};
use crate::memory::{
    framebuffer_offset, host_address, in_alias, physical_address, FRAMEBUFFER_HOST_BASE,
    FRAMEBUFFER_MAP_SIZE, KSEG_MASK, LCD_FB_KSEG0_ADDRESS, LCD_FB_KSEG1_ADDRESS, RAM_SIZE,
    VM_LCD_FB_ADDRESS, Width,
};
use vstd::prelude::*;

verus! {

/// Progress of guest code inside a block.
#[verifier::ext_equal]
pub enum Progress {
    /// Still inside, with this machine.
    Inside(Machine),
    /// The block was left.
    Left(BlockExit),
}

/// The operations emitted so far and where each register lives.
pub struct LoweringState {
    pub ops: Vec<Op>,
    pub values: Vec<Option<Value>>,
    pub dirty: Vec<bool>,
}

impl LoweringState {
    /// Every register has an entry, every entry an operation, and what was
    /// written has a value; register zero is never written.
    pub open spec fn wf(&self) -> bool {
        &&& self.values@.len() == REGISTER_COUNT
        &&& self.dirty@.len() == REGISTER_COUNT
        &&& forall|r: int|
            0 <= r < REGISTER_COUNT ==> match #[trigger] self.values@[r] {
                Some(value) => value < self.ops@.len(),
                None => !self.dirty@[r],
            }
        &&& !self.dirty@[0]
    }
}

/// Values defined when the emitted operations run on a machine.
pub open spec fn values_of(state: LoweringState, machine: Machine) -> Seq<u64> {
    match run(state.ops@, machine.regs, machine.memory) {
        Run::Running { values, memory } => values,
        Run::Left(_) => Seq::empty(),
    }
}

/// One of those values.
#[verifier::opaque]
pub open spec fn wide(state: LoweringState, machine: Machine, value: Value) -> u64 {
    value_at(values_of(state, machine), value)
}

/// One of those values, as a word.
pub open spec fn word(state: LoweringState, machine: Machine, value: Value) -> u32 {
    low_word(wide(state, machine, value))
}

/// Whether the register table describes `regs`, given the registers on entry.
pub open spec fn table_holds(
    state: LoweringState,
    values: Seq<u64>,
    entry: Seq<u32>,
    regs: Seq<u32>,
) -> bool {
    &&& entry.len() == REGISTER_COUNT
    &&& regs.len() == REGISTER_COUNT
    &&& forall|r: int|
        0 <= r < REGISTER_COUNT ==> #[trigger] regs[r] == (match state.values@[r] {
            Some(value) => word_at(values, value),
            None => entry[r],
        }) && (!state.dirty@[r] ==> regs[r] == entry[r])
}

/// Whether, started on `machine`, the emitted operations have made this progress.
#[verifier::opaque]
pub open spec fn tracks(state: LoweringState, machine: Machine, progress: Progress) -> bool {
    match (run(state.ops@, machine.regs, machine.memory), progress) {
        (Run::Running { values, memory }, Progress::Inside(reached)) => {
            &&& values.len() == state.ops@.len()
            &&& memory == reached.memory
            &&& table_holds(state, values, machine.regs, reached.regs)
        },
        (Run::Left(exit), Progress::Left(expected)) => exit == expected,
        _ => false,
    }
}

/// Operations that neither store nor leave the block.
pub open spec fn pure(op: Op) -> bool {
    !(op is Locate) && !(op is Store)
}

/// Whether an exit plan only names values that are defined.
pub open spec fn plan_wf(plan: ExitPlan, count: int) -> bool {
    &&& plan.stores@.len() == REGISTER_COUNT
    &&& forall|r: int|
        0 <= r < REGISTER_COUNT ==> match #[trigger] plan.stores@[r] {
            Some(value) => value < count,
            None => true,
        }
    &&& match plan.pc {
        ExitPc::Constant(_) => true,
        ExitPc::Computed(value) => value < count,
    }
}

/// The exit that a plan takes at this point.
#[verifier::opaque]
pub open spec fn exit_now(state: LoweringState, machine: Machine, plan: ExitPlan) -> BlockExit {
    match run(state.ops@, machine.regs, machine.memory) {
        Run::Running { values, memory } => leave(plan, values, memory, machine.regs),
        Run::Left(exit) => exit,
    }
}

/// Whether a state only adds operations without side effects to another one.
pub open spec fn extends(before: LoweringState, after: LoweringState) -> bool {
    &&& before.ops@.len() <= after.ops@.len()
    &&& after.dirty@ == before.dirty@
    &&& forall|m: Machine, p: Progress| #[trigger] tracks(before, m, p) ==> tracks(after, m, p)
    &&& forall|m: Machine, p: Progress, v: Value|
        #![trigger tracks(before, m, p), wide(after, m, v)]
        tracks(before, m, p) && v < before.ops@.len() ==> wide(after, m, v) == wide(before, m, v)
    &&& forall|m: Machine, p: Progress, plan: ExitPlan|
        #![trigger tracks(before, m, p), exit_now(after, m, plan)]
        tracks(before, m, p) && plan_wf(plan, before.ops@.len() as int) ==> exit_now(after, m, plan)
            == exit_now(before, m, plan)
}

/// Whether the operations added to a state do what a register instruction does.
pub open spec fn lowers(before: LoweringState, after: LoweringState, instruction: u32) -> bool {
    &&& before.ops@.len() <= after.ops@.len()
    &&& forall|m: Machine, reached: Machine| #[trigger]
        tracks(before, m, Progress::Inside(reached)) ==> tracks(
            after,
            m,
            Progress::Inside(
                Machine {
                    regs: register_effect(reached.regs, instruction),
                    memory: reached.memory,
                },
            ),
        )
    &&& forall|m: Machine, exit: BlockExit| #[trigger]
        tracks(before, m, Progress::Left(exit)) ==> tracks(after, m, Progress::Left(exit))
    &&& keeps_values(before, after)
}

/// Whether defined values and planned exits are the same in both states.
pub open spec fn keeps_values(before: LoweringState, after: LoweringState) -> bool {
    &&& forall|m: Machine, p: Progress| #[trigger]
        tracks(before, m, p) ==> exists|q: Progress| tracks(after, m, q)
    &&& forall|m: Machine, p: Progress, v: Value|
        #![trigger tracks(before, m, p), wide(after, m, v)]
        tracks(before, m, p) && v < before.ops@.len() ==> wide(after, m, v) == wide(before, m, v)
    &&& forall|m: Machine, p: Progress, plan: ExitPlan|
        #![trigger tracks(before, m, p), exit_now(after, m, plan)]
        tracks(before, m, p) && plan_wf(plan, before.ops@.len() as int) ==> exit_now(after, m, plan)
            == exit_now(before, m, plan)
}

/// What emitting an operation without side effects does.
proof fn lemma_pure(before: LoweringState, after: LoweringState, op: Op, machine: Machine)
    requires
        before.wf(),
        pure(op),
        after.ops@ == before.ops@.push(op),
        after.values@ == before.values@,
        after.dirty@ == before.dirty@,
        before.ops@.len() <= usize::MAX,
    ensures
        forall|progress: Progress|
            tracks(before, machine, progress) ==> #[trigger] tracks(after, machine, progress),
        forall|value: Value|
            value < before.ops@.len() && (exists|p: Progress| tracks(before, machine, p))
                ==> #[trigger] wide(after, machine, value) == wide(before, machine, value),
        forall|plan: ExitPlan|
            plan_wf(plan, before.ops@.len() as int) && (exists|p: Progress|
                tracks(before, machine, p)) ==> #[trigger] exit_now(after, machine, plan)
                == exit_now(before, machine, plan),
        forall|reached: Machine| #[trigger]
            tracks(before, machine, Progress::Inside(reached)) ==> wide(
                after,
                machine,
                before.ops@.len() as usize,
            ) == pure_result(
                op,
                values_of(before, machine),
                reached.memory,
                machine.regs,
            ),
{
    reveal(tracks);
    reveal(wide);
    reveal(exit_now);
    assert(after.ops@.drop_last() =~= before.ops@);
    assert(after.ops@.last() == op);
    match run(before.ops@, machine.regs, machine.memory) {
        Run::Running { values, memory } => {
            let result = pure_result(op, values, memory, machine.regs);
            assert(run(after.ops@, machine.regs, machine.memory) == (Run::Running {
                values: values.push(result),
                memory,
            }));
            assert forall|progress: Progress| tracks(before, machine, progress) implies #[trigger] tracks(
                after,
                machine,
                progress,
            ) by {
                let reached = progress->Inside_0;
                assert forall|r: int| 0 <= r < REGISTER_COUNT implies #[trigger] reached.regs[r] == (
                match after.values@[r] {
                    Some(value) => word_at(values.push(result), value),
                    None => machine.regs[r],
                }) && (!after.dirty@[r] ==> reached.regs[r] == machine.regs[r]) by {
                    assert(before.values@[r] == after.values@[r]);
                }
            }
            assert forall|plan: ExitPlan|
                plan_wf(plan, before.ops@.len() as int) && (exists|p: Progress|
                    tracks(before, machine, p)) implies #[trigger] exit_now(after, machine, plan)
                == exit_now(before, machine, plan) by {
                let p = choose|p: Progress| tracks(before, machine, p);
                assert(values.len() == before.ops@.len());
                let left = leave(plan, values, memory, machine.regs);
                let right = leave(plan, values.push(result), memory, machine.regs);
                assert forall|r: int| 0 <= r < machine.regs.len() implies left.regs[r]
                    == right.regs[r] by {
                    if r < plan.stores@.len() {
                        let _ = plan.stores@[r];
                    }
                }
                assert(left.regs =~= right.regs);
            }
        },
        Run::Left(exit) => {},
    }
}

impl LoweringState {
    /// Nothing emitted, every register where it was on entry.
    pub fn new() -> (state: LoweringState)
        ensures
            state.wf(),
            state.ops@.len() == 0,
            forall|machine: Machine|
                machine.regs.len() == REGISTER_COUNT ==> #[trigger] tracks(
                    state,
                    machine,
                    Progress::Inside(machine),
                ),
    {
        let state = LoweringState {
            ops: Vec::new(),
            values: vec![None; REGISTER_COUNT],
            dirty: vec![false; REGISTER_COUNT],
        };
        proof {
            reveal(tracks);
            assert(forall|r: int| 0 <= r < REGISTER_COUNT ==> state.values@[r] is None);
            assert(forall|r: int| 0 <= r < REGISTER_COUNT ==> !state.dirty@[r]);
        }
        state
    }

    fn emit(&mut self, op: Op) -> (value: Value)
        requires
            old(self).wf(),
        ensures
            final(self).wf(),
            final(self).ops@ == old(self).ops@.push(op),
            final(self).values@ == old(self).values@,
            final(self).dirty@ == old(self).dirty@,
            value == old(self).ops@.len(),
    {
        let value: Value = self.ops.len();
        self.ops.push(op);
        value
    }

    /// Emits an operation without side effects.
    fn emit_pure(&mut self, op: Op) -> (value: Value)
        requires
            old(self).wf(),
            pure(op),
        ensures
            final(self).wf(),
            extends(*old(self), *final(self)),
            final(self).values@ == old(self).values@,
            value == old(self).ops@.len(),
            value < final(self).ops@.len(),
            forall|m: Machine, reached: Machine| #[trigger]
                tracks(*old(self), m, Progress::Inside(reached)) ==> wide(*final(self), m, value)
                    == pure_result(op, values_of(*old(self), m), reached.memory, m.regs),
    {
        let ghost before = *self;
        let value: Value = self.emit(op);
        proof {
            assert forall|m: Machine, p: Progress| #[trigger] tracks(before, m, p) implies tracks(
                *self,
                m,
                p,
            ) by {
                lemma_pure(before, *self, op, m);
            }
            assert forall|m: Machine, p: Progress, v: Value|
                #![trigger tracks(before, m, p), wide(*self, m, v)]
                tracks(before, m, p) && v < before.ops@.len() implies wide(*self, m, v) == wide(
                before,
                m,
                v,
            ) by {
                lemma_pure(before, *self, op, m);
            }
            assert forall|m: Machine, p: Progress, plan: ExitPlan|
                #![trigger tracks(before, m, p), exit_now(*self, m, plan)]
                tracks(before, m, p) && plan_wf(plan, before.ops@.len() as int) implies exit_now(
                *self,
                m,
                plan,
            ) == exit_now(before, m, plan) by {
                lemma_pure(before, *self, op, m);
            }
            assert forall|m: Machine, reached: Machine| #[trigger]
                tracks(before, m, Progress::Inside(reached)) implies wide(*self, m, value)
                == pure_result(op, values_of(before, m), reached.memory, m.regs) by {
                lemma_pure(before, *self, op, m);
            }
        }
        value
    }

    /// Emits a constant.
    fn iconst_u32(&mut self, constant: u32) -> (value: Value)
        requires
            old(self).wf(),
        ensures
            final(self).wf(),
            extends(*old(self), *final(self)),
            final(self).values@ == old(self).values@,
            value < final(self).ops@.len(),
            forall|m: Machine, reached: Machine| #[trigger]
                tracks(*old(self), m, Progress::Inside(reached)) ==> wide(*final(self), m, value)
                    == constant as u64,
    {
        self.emit_pure(Op::Constant(constant))
    }

    fn unary(&mut self, op: UnaryOp, operand: Value) -> (value: Value)
        requires
            old(self).wf(),
        ensures
            final(self).wf(),
            extends(*old(self), *final(self)),
            final(self).values@ == old(self).values@,
            value < final(self).ops@.len(),
            forall|m: Machine, reached: Machine| #[trigger]
                tracks(*old(self), m, Progress::Inside(reached)) ==> wide(*final(self), m, value)
                    == unary_result(op, wide(*old(self), m, operand)),
    {
        reveal(wide);
        self.emit_pure(Op::Unary(op, operand))
    }

    fn binary(&mut self, op: BinaryOp, left: Value, right: Value) -> (value: Value)
        requires
            old(self).wf(),
        ensures
            final(self).wf(),
            extends(*old(self), *final(self)),
            final(self).values@ == old(self).values@,
            value < final(self).ops@.len(),
            forall|m: Machine, reached: Machine| #[trigger]
                tracks(*old(self), m, Progress::Inside(reached)) ==> wide(*final(self), m, value)
                    == binary_result(
                    op,
                    word(*old(self), m, left),
                    word(*old(self), m, right),
                ) as u64,
    {
        reveal(wide);
        self.emit_pure(Op::Binary(op, left, right))
    }

    fn wide_binary(&mut self, op: WideOp, left: Value, right: Value) -> (value: Value)
        requires
            old(self).wf(),
        ensures
            final(self).wf(),
            extends(*old(self), *final(self)),
            final(self).values@ == old(self).values@,
            value < final(self).ops@.len(),
            forall|m: Machine, reached: Machine| #[trigger]
                tracks(*old(self), m, Progress::Inside(reached)) ==> wide(*final(self), m, value)
                    == wide_result(op, wide(*old(self), m, left), wide(*old(self), m, right)),
    {
        reveal(wide);
        self.emit_pure(Op::Wide(op, left, right))
    }

    fn compare(&mut self, condition: Condition, left: Value, right: Value) -> (value: Value)
        requires
            old(self).wf(),
        ensures
            final(self).wf(),
            extends(*old(self), *final(self)),
            final(self).values@ == old(self).values@,
            value < final(self).ops@.len(),
            forall|m: Machine, reached: Machine| #[trigger]
                tracks(*old(self), m, Progress::Inside(reached)) ==> wide(*final(self), m, value)
                    == flag(
                    compares(condition, word(*old(self), m, left), word(*old(self), m, right)),
                ),
    {
        reveal(wide);
        self.emit_pure(Op::Compare(condition, left, right))
    }

    fn select(&mut self, condition: Value, yes: Value, no: Value) -> (value: Value)
        requires
            old(self).wf(),
        ensures
            final(self).wf(),
            extends(*old(self), *final(self)),
            final(self).values@ == old(self).values@,
            value < final(self).ops@.len(),
            forall|m: Machine, reached: Machine| #[trigger]
                tracks(*old(self), m, Progress::Inside(reached)) ==> wide(*final(self), m, value)
                    == if word(*old(self), m, condition) != 0 {
                    wide(*old(self), m, yes)
                } else {
                    wide(*old(self), m, no)
                },
    {
        reveal(wide);
        self.emit_pure(Op::Select(condition, yes, no))
    }

    fn load(&mut self, width: Width, host: Value) -> (value: Value)
        requires
            old(self).wf(),
        ensures
            final(self).wf(),
            extends(*old(self), *final(self)),
            final(self).values@ == old(self).values@,
            value < final(self).ops@.len(),
            forall|m: Machine, reached: Machine| #[trigger]
                tracks(*old(self), m, Progress::Inside(reached)) ==> wide(*final(self), m, value)
                    == reached.memory.load(wide(*old(self), m, host) as int, width) as u64,
    {
        reveal(wide);
        self.emit_pure(Op::Load(width, host))
    }

    /// The value that holds a register, HI or LO.
    fn read_special_register(&mut self, register: usize) -> (value: Value)
        requires
            old(self).wf(),
            register < REGISTER_COUNT,
        ensures
            final(self).wf(),
            extends(*old(self), *final(self)),
            value < final(self).ops@.len(),
            forall|m: Machine, reached: Machine| #[trigger]
                tracks(*old(self), m, Progress::Inside(reached)) ==> word(*final(self), m, value)
                    == reached.regs[register as int],
    {
        if let Some(value) = self.values[register] {
            proof {
                reveal(tracks);
                reveal(wide);
                assert(self.values@[register as int] == Some(value));
                assert forall|m: Machine, reached: Machine| #[trigger]
                    tracks(*self, m, Progress::Inside(reached)) implies word(*self, m, value)
                    == reached.regs[register as int] by {}
            }
            return value;
        }
        let ghost before = *self;
        let value: Value = self.emit_pure(Op::ReadRegister(register));
        let ghost emitted = *self;
        self.values.set(register, Some(value));
        proof {
            assert(self.ops@ == emitted.ops@);
            assert(before.values@[register as int] is None);
            assert forall|m: Machine, reached: Machine| #[trigger]
                tracks(before, m, Progress::Inside(reached)) implies word(*self, m, value)
                == reached.regs[register as int] by {
                reveal(wide);
                reveal(tracks);
                assert(wide(emitted, m, value) == m.regs[register as int] as u64);
                assert(reached.regs[register as int] == m.regs[register as int]);
            }
            assert forall|m: Machine, p: Progress| #[trigger]
                tracks(emitted, m, p) && tracks(before, m, p) implies tracks(
                *self,
                m,
                p,
            ) by {
                reveal(wide);
                reveal(tracks);
                if p is Inside {
                    let reached = p->Inside_0;
                    let values = values_of(emitted, m);
                    assert forall|r: int| 0 <= r < REGISTER_COUNT implies #[trigger] reached.regs[r]
                        == (match self.values@[r] {
                        Some(value) => word_at(values, value),
                        None => m.regs[r],
                    }) && (!self.dirty@[r] ==> reached.regs[r] == m.regs[r]) by {
                        if r == register {
                            assert(word(*self, m, value) == reached.regs[r]);
                        } else {
                            assert(self.values@[r] == emitted.values@[r]);
                        }
                    }
                }
            }
            assert forall|m: Machine, v: Value| #[trigger] wide(*self, m, v) == wide(emitted, m, v) by {
                reveal(wide);
            }
            assert forall|m: Machine, plan: ExitPlan| #[trigger]
                exit_now(*self, m, plan) == exit_now(emitted, m, plan) by {
                reveal(exit_now);
            }
        }
        value
    }

    /// The value that holds a general register.
    fn read_register(&mut self, register: usize) -> (value: Value)
        requires
            old(self).wf(),
            register < REGISTER_COUNT,
        ensures
            final(self).wf(),
            extends(*old(self), *final(self)),
            value < final(self).ops@.len(),
            forall|m: Machine, reached: Machine| #[trigger]
                tracks(*old(self), m, Progress::Inside(reached)) ==> word(*final(self), m, value)
                    == reg(reached.regs, register as int),
    {
        if register == 0 {
            return self.iconst_u32(0);
        }
        self.read_special_register(register)
    }

    /// Lets a value hold a register, HI or LO.
    fn write_special_register(&mut self, register: usize, value: Value)
        requires
            old(self).wf(),
            0 < register < REGISTER_COUNT,
            value < old(self).ops@.len(),
        ensures
            final(self).wf(),
            final(self).ops@ == old(self).ops@,
            keeps_values(*old(self), *final(self)),
            forall|m: Machine, exit: BlockExit| #[trigger]
                tracks(*old(self), m, Progress::Left(exit)) ==> tracks(
                    *final(self),
                    m,
                    Progress::Left(exit),
                ),
            forall|m: Machine, reached: Machine| #[trigger]
                tracks(*old(self), m, Progress::Inside(reached)) ==> tracks(
                    *final(self),
                    m,
                    Progress::Inside(
                        Machine {
                            regs: reached.regs.update(
                                register as int,
                                word(*old(self), m, value),
                            ),
                            memory: reached.memory,
                        },
                    ),
                ),
    {
        let ghost before = *self;
        self.values.set(register, Some(value));
        self.dirty.set(register, true);
        proof {
            assert forall|m: Machine, v: Value| #[trigger] wide(*self, m, v) == wide(before, m, v) by {
                reveal(wide);
            }
            assert forall|m: Machine, plan: ExitPlan| #[trigger]
                exit_now(*self, m, plan) == exit_now(before, m, plan) by {
                reveal(exit_now);
            }
            assert forall|m: Machine, exit: BlockExit| #[trigger]
                tracks(before, m, Progress::Left(exit)) implies tracks(
                *self,
                m,
                Progress::Left(exit),
            ) by {
                reveal(tracks);
            }
            assert forall|m: Machine, reached: Machine| #[trigger]
                tracks(before, m, Progress::Inside(reached)) implies tracks(
                *self,
                m,
                Progress::Inside(
                    Machine {
                        regs: reached.regs.update(register as int, word(before, m, value)),
                        memory: reached.memory,
                    },
                ),
            ) by {
                reveal(tracks);
                reveal(wide);
                let regs = reached.regs.update(register as int, word(before, m, value));
                let values = values_of(before, m);
                assert forall|r: int| 0 <= r < REGISTER_COUNT implies #[trigger] regs[r] == (
                match self.values@[r] {
                    Some(value) => word_at(values, value),
                    None => m.regs[r],
                }) && (!self.dirty@[r] ==> regs[r] == m.regs[r]) by {
                    if r != register {
                        assert(self.values@[r] == before.values@[r]);
                        assert(regs[r] == reached.regs[r]);
                    }
                }
            }
            assert forall|m: Machine, p: Progress| #[trigger]
                tracks(before, m, p) implies exists|q: Progress| tracks(*self, m, q) by {
                match p {
                    Progress::Inside(reached) => {
                        assert(tracks(before, m, Progress::Inside(reached)));
                    },
                    Progress::Left(exit) => {
                        assert(tracks(before, m, Progress::Left(exit)));
                    },
                }
            }
        }
    }

    /// Lets a value hold a general register; register zero stays as it is.
    fn write_register(&mut self, register: usize, value: Value)
        requires
            old(self).wf(),
            register < REGISTER_COUNT,
            value < old(self).ops@.len(),
        ensures
            final(self).wf(),
            final(self).ops@ == old(self).ops@,
            keeps_values(*old(self), *final(self)),
            forall|m: Machine, exit: BlockExit| #[trigger]
                tracks(*old(self), m, Progress::Left(exit)) ==> tracks(
                    *final(self),
                    m,
                    Progress::Left(exit),
                ),
            forall|m: Machine, reached: Machine| #[trigger]
                tracks(*old(self), m, Progress::Inside(reached)) ==> tracks(
                    *final(self),
                    m,
                    Progress::Inside(
                        Machine {
                            regs: with_reg(
                                reached.regs,
                                register as int,
                                word(*old(self), m, value),
                            ),
                            memory: reached.memory,
                        },
                    ),
                ),
    {
        if register != 0 {
            self.write_special_register(register, value);
        } else {
            assert forall|m: Machine, reached: Machine| #[trigger]
                tracks(*self, m, Progress::Inside(reached)) implies tracks(
                *self,
                m,
                Progress::Inside(
                    Machine {
                        regs: with_reg(reached.regs, 0, word(*self, m, value)),
                        memory: reached.memory,
                    },
                ),
            ) by {
                assert(Machine {
                    regs: with_reg(reached.regs, 0, word(*self, m, value)),
                    memory: reached.memory,
                } == reached);
            }
        }
    }

    /// Lets a 64-bit value hold HI and LO.
    fn write_i64_pair(&mut self, value: Value)
        requires
            old(self).wf(),
            value < old(self).ops@.len(),
        ensures
            final(self).wf(),
            old(self).ops@.len() <= final(self).ops@.len(),
            keeps_values(*old(self), *final(self)),
            forall|m: Machine, exit: BlockExit| #[trigger]
                tracks(*old(self), m, Progress::Left(exit)) ==> tracks(
                    *final(self),
                    m,
                    Progress::Left(exit),
                ),
            forall|m: Machine, reached: Machine| #[trigger]
                tracks(*old(self), m, Progress::Inside(reached)) ==> tracks(
                    *final(self),
                    m,
                    Progress::Inside(
                        Machine {
                            regs: with_pair(reached.regs, wide(*old(self), m, value)),
                            memory: reached.memory,
                        },
                    ),
                ),
    {
        let lo: Value = self.unary(UnaryOp::Narrow, value);
        let shifted: Value = self.unary(UnaryOp::WideShiftRight, value);
        let hi: Value = self.unary(UnaryOp::Narrow, shifted);
        self.write_special_register(LO_INDEX, lo);
        self.write_special_register(HI_INDEX, hi);
    }

    fn lower_shift(&mut self, instruction: u32)
        requires
            old(self).wf(),
            instruction != 0,
            opcode_of(instruction) == 0,
            funct_of(instruction) == 0x00 || funct_of(instruction) == 0x02 || funct_of(instruction)
                == 0x03,
        ensures
            final(self).wf(),
            lowers(*old(self), *final(self), instruction),
    {
        proof {
            lemma_fields(instruction);
        }
        let rt: usize = ((instruction >> 16) & 0x1f) as usize;
        let rd: usize = ((instruction >> 11) & 0x1f) as usize;
        let funct: u32 = instruction & 0x3f;
        let value: Value = self.read_register(rt);
        let amount: Value = self.iconst_u32((instruction >> 6) & 0x1f);
        let op = if funct == 0x00 {
            BinaryOp::ShiftLeft
        } else if funct == 0x02 {
            BinaryOp::ShiftRight
        } else {
            BinaryOp::ShiftRightSigned
        };
        let shifted: Value = self.binary(op, value, amount);
        self.write_register(rd, shifted);
    }

    fn lower_variable_shift(&mut self, instruction: u32)
        requires
            old(self).wf(),
            instruction != 0,
            opcode_of(instruction) == 0,
            funct_of(instruction) == 0x04 || funct_of(instruction) == 0x06 || funct_of(instruction)
                == 0x07,
        ensures
            final(self).wf(),
            lowers(*old(self), *final(self), instruction),
    {
        proof {
            lemma_fields(instruction);
            assert forall|amount: u32| (#[trigger] (amount & 0x1f)) & 0x1f == amount & 0x1f by {
                lemma_shift_amount(amount);
            }
        }
        let rs: usize = ((instruction >> 21) & 0x1f) as usize;
        let rt: usize = ((instruction >> 16) & 0x1f) as usize;
        let rd: usize = ((instruction >> 11) & 0x1f) as usize;
        let funct: u32 = instruction & 0x3f;
        let value: Value = self.read_register(rt);
        let shift: Value = self.read_register(rs);
        let mask: Value = self.iconst_u32(0x1f);
        let amount: Value = self.binary(BinaryOp::And, shift, mask);
        let op = if funct == 0x04 {
            BinaryOp::ShiftLeft
        } else if funct == 0x06 {
            BinaryOp::ShiftRight
        } else {
            BinaryOp::ShiftRightSigned
        };
        let shifted: Value = self.binary(op, value, amount);
        self.write_register(rd, shifted);
    }

    fn lower_conditional_move(&mut self, instruction: u32)
        requires
            old(self).wf(),
            instruction != 0,
            opcode_of(instruction) == 0,
            funct_of(instruction) == 0x0a || funct_of(instruction) == 0x0b,
        ensures
            final(self).wf(),
            lowers(*old(self), *final(self), instruction),
    {
        proof {
            lemma_fields(instruction);
        }
        let rs: usize = ((instruction >> 21) & 0x1f) as usize;
        let rt: usize = ((instruction >> 16) & 0x1f) as usize;
        let rd: usize = ((instruction >> 11) & 0x1f) as usize;
        let source: Value = self.read_register(rs);
        let condition_value: Value = self.read_register(rt);
        let current: Value = self.read_register(rd);
        let zero: Value = self.iconst_u32(0);
        let comparison = if instruction & 0x3f == 0x0a {
            Condition::Equal
        } else {
            Condition::NotEqual
        };
        let condition: Value = self.compare(comparison, condition_value, zero);
        let result: Value = self.select(condition, source, current);
        self.write_register(rd, result);
    }

    fn lower_hi_lo_move(&mut self, instruction: u32)
        requires
            old(self).wf(),
            instruction != 0,
            opcode_of(instruction) == 0,
            0x10 <= funct_of(instruction) <= 0x13,
        ensures
            final(self).wf(),
            lowers(*old(self), *final(self), instruction),
    {
        proof {
            lemma_fields(instruction);
        }
        let rs: usize = ((instruction >> 21) & 0x1f) as usize;
        let rd: usize = ((instruction >> 11) & 0x1f) as usize;
        let funct: u32 = instruction & 0x3f;
        if funct == 0x10 {
            let value: Value = self.read_special_register(HI_INDEX);
            self.write_register(rd, value);
        } else if funct == 0x11 {
            let value: Value = self.read_register(rs);
            self.write_special_register(HI_INDEX, value);
        } else if funct == 0x12 {
            let value: Value = self.read_special_register(LO_INDEX);
            self.write_register(rd, value);
        } else {
            let value: Value = self.read_register(rs);
            self.write_special_register(LO_INDEX, value);
        }
    }

    fn lower_multiply(&mut self, instruction: u32)
        requires
            old(self).wf(),
            instruction != 0,
            opcode_of(instruction) == 0,
            funct_of(instruction) == 0x18 || funct_of(instruction) == 0x19,
        ensures
            final(self).wf(),
            lowers(*old(self), *final(self), instruction),
    {
        proof {
            lemma_fields(instruction);
        }
        let rs: usize = ((instruction >> 21) & 0x1f) as usize;
        let rt: usize = ((instruction >> 16) & 0x1f) as usize;
        let left: Value = self.read_register(rs);
        let right: Value = self.read_register(rt);
        let widen = if instruction & 0x3f == 0x18 {
            UnaryOp::WidenSigned
        } else {
            UnaryOp::Widen
        };
        let left: Value = self.unary(widen, left);
        let right: Value = self.unary(widen, right);
        let product: Value = self.wide_binary(WideOp::Mul, left, right);
        self.write_i64_pair(product);
    }

    fn lower_binary(&mut self, instruction: u32)
        requires
            old(self).wf(),
            instruction != 0,
            opcode_of(instruction) == 0,
            0x20 <= funct_of(instruction) <= 0x27,
        ensures
            final(self).wf(),
            lowers(*old(self), *final(self), instruction),
    {
        proof {
            lemma_fields(instruction);
        }
        let rs: usize = ((instruction >> 21) & 0x1f) as usize;
        let rt: usize = ((instruction >> 16) & 0x1f) as usize;
        let rd: usize = ((instruction >> 11) & 0x1f) as usize;
        let funct: u32 = instruction & 0x3f;
        let left: Value = self.read_register(rs);
        let right: Value = self.read_register(rt);
        let op = if funct == 0x20 || funct == 0x21 {
            BinaryOp::Add
        } else if funct == 0x22 || funct == 0x23 {
            BinaryOp::Sub
        } else if funct == 0x24 {
            BinaryOp::And
        } else if funct == 0x26 {
            BinaryOp::Xor
        } else {
            BinaryOp::Or
        };
        let value: Value = self.binary(op, left, right);
        if funct == 0x27 {
            let value: Value = self.unary(UnaryOp::Not, value);
            self.write_register(rd, value);
        } else {
            self.write_register(rd, value);
        }
    }

    fn lower_set_less(&mut self, instruction: u32)
        requires
            old(self).wf(),
            instruction != 0,
            opcode_of(instruction) == 0,
            0x2a <= funct_of(instruction) <= 0x2b,
        ensures
            final(self).wf(),
            lowers(*old(self), *final(self), instruction),
    {
        proof {
            lemma_fields(instruction);
        }
        let rs: usize = ((instruction >> 21) & 0x1f) as usize;
        let rt: usize = ((instruction >> 16) & 0x1f) as usize;
        let rd: usize = ((instruction >> 11) & 0x1f) as usize;
        let left: Value = self.read_register(rs);
        let right: Value = self.read_register(rt);
        let comparison = if instruction & 0x3f == 0x2a {
            Condition::SignedLess
        } else {
            Condition::Less
        };
        let condition: Value = self.compare(comparison, left, right);
        let value: Value = self.unary(UnaryOp::ZeroExtend, condition);
        self.write_register(rd, value);
    }

    fn lower_divide(&mut self, instruction: u32)
        requires
            old(self).wf(),
            instruction != 0,
            opcode_of(instruction) == 0,
            0x1a <= funct_of(instruction) <= 0x1b,
        ensures
            final(self).wf(),
            lowers(*old(self), *final(self), instruction),
    {
        proof {
            lemma_fields(instruction);
            assert(0u32 | 0 == 0 && 0u32 | 1 == 1 && 1u32 | 0 == 1 && 1u32 | 1 == 1 && 0u32 & 0 == 0
                && 0u32 & 1 == 0 && 1u32 & 0 == 0 && 1u32 & 1 == 1) by (bit_vector);
        }
        let rs: usize = ((instruction >> 21) & 0x1f) as usize;
        let rt: usize = ((instruction >> 16) & 0x1f) as usize;
        let signed: bool = instruction & 0x3f == 0x1a;
        let numerator: Value = self.read_register(rs);
        let denominator: Value = self.read_register(rt);
        let none: Value = self.iconst_u32(0);
        let zero: Value = self.compare(Condition::Equal, denominator, none);
        let invalid: Value = if signed {
            let minimum: Value = self.iconst_u32(0x8000_0000);
            let negative_one: Value = self.iconst_u32(0xffff_ffff);
            let is_minimum: Value = self.compare(Condition::Equal, numerator, minimum);
            let is_negative_one: Value = self.compare(Condition::Equal, denominator, negative_one);
            let overflow: Value = self.binary(BinaryOp::And, is_minimum, is_negative_one);
            self.binary(BinaryOp::Or, zero, overflow)
        } else {
            zero
        };
        let one: Value = self.iconst_u32(1);
        let safe_denominator: Value = self.select(invalid, one, denominator);
        let quotient: Value = self.binary(
            if signed {
                BinaryOp::DivideSigned
            } else {
                BinaryOp::Divide
            },
            numerator,
            safe_denominator,
        );
        let remainder: Value = self.binary(
            if signed {
                BinaryOp::RemainderSigned
            } else {
                BinaryOp::Remainder
            },
            numerator,
            safe_denominator,
        );
        let old_lo: Value = self.read_special_register(LO_INDEX);
        let old_hi: Value = self.read_special_register(HI_INDEX);
        let lo: Value = self.select(invalid, old_lo, quotient);
        let hi: Value = self.select(invalid, old_hi, remainder);
        self.write_special_register(LO_INDEX, lo);
        self.write_special_register(HI_INDEX, hi);
        proof {
            assert forall|m: Machine, reached: Machine| #[trigger]
                tracks(*old(self), m, Progress::Inside(reached)) implies tracks(
                *self,
                m,
                Progress::Inside(
                    Machine {
                        regs: register_effect(reached.regs, instruction),
                        memory: reached.memory,
                    },
                ),
            ) by {
                let regs = reached.regs;
                assert(regs.len() == REGISTER_COUNT) by {
                    reveal(tracks);
                }
                assert(regs.update(LO_INDEX as int, regs[LO_INDEX as int]).update(
                    HI_INDEX as int,
                    regs[HI_INDEX as int],
                ) =~= regs);
            }
        }
    }

    fn lower_special2(&mut self, instruction: u32)
        requires
            old(self).wf(),
            opcode_of(instruction) == 0x1c,
            instruction != 0,
            register_instruction(instruction),
        ensures
            final(self).wf(),
            lowers(*old(self), *final(self), instruction),
    {
        proof {
            lemma_fields(instruction);
        }
        let rs: usize = ((instruction >> 21) & 0x1f) as usize;
        let rt: usize = ((instruction >> 16) & 0x1f) as usize;
        let rd: usize = ((instruction >> 11) & 0x1f) as usize;
        let funct: u32 = instruction & 0x3f;
        if funct == 0x02 {
            let left: Value = self.read_register(rs);
            let right: Value = self.read_register(rt);
            let result: Value = self.binary(BinaryOp::Mul, left, right);
            self.write_register(rd, result);
        } else if funct == 0x20 {
            let value: Value = self.read_register(rs);
            let result: Value = self.unary(UnaryOp::CountLeadingZeros, value);
            self.write_register(rd, result);
        } else if funct == 0x21 {
            let value: Value = self.read_register(rs);
            let value: Value = self.unary(UnaryOp::Not, value);
            let result: Value = self.unary(UnaryOp::CountLeadingZeros, value);
            self.write_register(rd, result);
        } else {
            let left: Value = self.read_register(rs);
            let right: Value = self.read_register(rt);
            let left: Value = self.unary(UnaryOp::Widen, left);
            let right: Value = self.unary(UnaryOp::Widen, right);
            let product: Value = self.wide_binary(WideOp::Mul, left, right);
            let hi: Value = self.read_special_register(HI_INDEX);
            let lo: Value = self.read_special_register(LO_INDEX);
            let hi: Value = self.unary(UnaryOp::Widen, hi);
            let hi: Value = self.unary(UnaryOp::WideShiftLeft, hi);
            let lo: Value = self.unary(UnaryOp::Widen, lo);
            let sum: Value = self.wide_binary(WideOp::Or, hi, lo);
            let op = if funct == 0x00 || funct == 0x01 {
                WideOp::Add
            } else {
                WideOp::Sub
            };
            let result: Value = self.wide_binary(op, sum, product);
            self.write_i64_pair(result);
        }
    }

    fn lower_immediate(&mut self, instruction: u32)
        requires
            old(self).wf(),
            instruction != 0,
            0x08 <= opcode_of(instruction) <= 0x0f,
        ensures
            final(self).wf(),
            lowers(*old(self), *final(self), instruction),
    {
        proof {
            lemma_fields(instruction);
        }
        let opcode: u32 = instruction >> 26;
        let rs: usize = ((instruction >> 21) & 0x1f) as usize;
        let rt: usize = ((instruction >> 16) & 0x1f) as usize;
        let signed: u32 = instruction as i16 as i32 as u32;
        let unsigned: u32 = instruction as u16 as u32;
        if opcode == 0x0f {
            let value: Value = self.iconst_u32(unsigned << 16);
            self.write_register(rt, value);
            return ;
        }
        let source: Value = self.read_register(rs);
        if opcode == 0x0a || opcode == 0x0b {
            let immediate: Value = self.iconst_u32(signed);
            let comparison = if opcode == 0x0a {
                Condition::SignedLess
            } else {
                Condition::Less
            };
            let condition: Value = self.compare(comparison, source, immediate);
            let value: Value = self.unary(UnaryOp::ZeroExtend, condition);
            self.write_register(rt, value);
        } else if opcode == 0x08 || opcode == 0x09 {
            let immediate: Value = self.iconst_u32(signed);
            let value: Value = self.binary(BinaryOp::Add, source, immediate);
            self.write_register(rt, value);
        } else {
            let immediate: Value = self.iconst_u32(unsigned);
            let op = if opcode == 0x0c {
                BinaryOp::And
            } else if opcode == 0x0d {
                BinaryOp::Or
            } else {
                BinaryOp::Xor
            };
            let value: Value = self.binary(op, source, immediate);
            self.write_register(rt, value);
        }
    }

    /// Lowers an instruction that only touches registers. Returns whether it is implemented.
    pub fn lower_register_instruction(&mut self, instruction: u32) -> (supported: bool)
        requires
            old(self).wf(),
        ensures
            final(self).wf(),
            supported == register_instruction(instruction),
            supported ==> lowers(*old(self), *final(self), instruction),
            !supported ==> *final(self) == *old(self),
    {
        if !is_supported_register_instruction(instruction) {
            return false;
        }
        let opcode: u32 = instruction >> 26;
        let funct: u32 = instruction & 0x3f;
        if instruction == 0 || opcode == 0x33 || (opcode == 0 && funct == 0x0f) {
            assert forall|m: Machine, reached: Machine| #[trigger]
                tracks(*self, m, Progress::Inside(reached)) implies tracks(
                *self,
                m,
                Progress::Inside(
                    Machine {
                        regs: register_effect(reached.regs, instruction),
                        memory: reached.memory,
                    },
                ),
            ) by {
                assert(Machine {
                    regs: register_effect(reached.regs, instruction),
                    memory: reached.memory,
                } == reached);
            }
        } else if opcode == 0x1c {
            self.lower_special2(instruction);
        } else if opcode != 0 {
            self.lower_immediate(instruction);
        } else if funct <= 0x03 {
            self.lower_shift(instruction);
        } else if funct <= 0x07 {
            self.lower_variable_shift(instruction);
        } else if funct <= 0x0b {
            self.lower_conditional_move(instruction);
        } else if funct <= 0x13 {
            self.lower_hi_lo_move(instruction);
        } else if funct <= 0x19 {
            self.lower_multiply(instruction);
        } else if funct <= 0x1b {
            self.lower_divide(instruction);
        } else if funct <= 0x27 {
            self.lower_binary(instruction);
        } else {
            self.lower_set_less(instruction);
        }
        true
    }

    fn select_branch_target(&mut self, condition: Value, taken: u32, fallthrough: u32) -> (value:
        Value)
        requires
            old(self).wf(),
        ensures
            final(self).wf(),
            extends(*old(self), *final(self)),
            value < final(self).ops@.len(),
            forall|m: Machine, reached: Machine| #[trigger]
                tracks(*old(self), m, Progress::Inside(reached)) && condition < old(self).ops@.len()
                    ==> word(*final(self), m, value) == (if word(*old(self), m, condition) != 0 {
                    taken
                } else {
                    fallthrough
                }),
    {
        let taken: Value = self.iconst_u32(taken);
        let fallthrough: Value = self.iconst_u32(fallthrough);
        self.select(condition, taken, fallthrough)
    }

    /// Lowers a branch up to its delay slot. Returns the value that holds its target.
    pub fn lower_branch(&mut self, instruction: u32, branch_pc: u32) -> (target: Option<Value>)
        requires
            old(self).wf(),
            control_flow(instruction),
        ensures
            final(self).wf(),
            target is Some <==> supported_branch(instruction),
            target is None ==> *final(self) == *old(self),
            target matches Some(target) ==> {
                &&& target < final(self).ops@.len()
                &&& old(self).ops@.len() <= final(self).ops@.len()
                &&& keeps_values(*old(self), *final(self))
                &&& forall|m: Machine, exit: BlockExit| #[trigger]
                    tracks(*old(self), m, Progress::Left(exit)) ==> tracks(
                        *final(self),
                        m,
                        Progress::Left(exit),
                    )
                &&& forall|m: Machine, reached: Machine| #[trigger]
                    tracks(*old(self), m, Progress::Inside(reached)) ==> tracks(
                        *final(self),
                        m,
                        Progress::Inside(
                            Machine {
                                regs: branch_registers(reached.regs, instruction, branch_pc),
                                memory: reached.memory,
                            },
                        ),
                    ) && word(*final(self), m, target) == branch_target(
                        reached.regs,
                        instruction,
                        branch_pc,
                    )
            },
    {
        if !lowerable_branch(instruction) {
            return None;
        }
        proof {
            lemma_fields(instruction);
        }
        let opcode: u32 = instruction >> 26;
        let rs: usize = ((instruction >> 21) & 0x1f) as usize;
        let rt: usize = ((instruction >> 16) & 0x1f) as usize;
        let rd: usize = ((instruction >> 11) & 0x1f) as usize;
        let after: u32 = branch_pc.wrapping_add(8);
        let taken: u32 = branch_pc.wrapping_add(4).wrapping_add(
            (instruction as i16 as i32 as u32) << 2,
        );
        if opcode == 0 {
            let target: Value = self.read_register(rs);
            if instruction & 0x3f == 0x09 {
                let link: Value = self.iconst_u32(after);
                self.write_register(rd, link);
            }
            return Some(target);
        }
        if opcode == 1 {
            if rt == 0x10 || rt == 0x11 {
                let link: Value = self.iconst_u32(after);
                self.write_register(31, link);
            }
            let source: Value = self.read_register(rs);
            let zero: Value = self.iconst_u32(0);
            let comparison = if rt == 0x00 || rt == 0x10 {
                Condition::SignedLess
            } else {
                Condition::SignedGreaterOrEqual
            };
            let condition: Value = self.compare(comparison, source, zero);
            return Some(self.select_branch_target(condition, taken, after));
        }
        if opcode == 2 || opcode == 3 {
            if opcode == 3 {
                let link: Value = self.iconst_u32(after);
                self.write_register(31, link);
            }
            let target: Value = self.iconst_u32(
                (branch_pc & 0xf000_0000) | ((instruction & 0x03ff_ffff) << 2),
            );
            return Some(target);
        }
        let left: Value = self.read_register(rs);
        let condition: Value = if opcode == 4 || opcode == 5 {
            let right: Value = self.read_register(rt);
            self.compare(
                if opcode == 4 {
                    Condition::Equal
                } else {
                    Condition::NotEqual
                },
                left,
                right,
            )
        } else {
            let zero: Value = self.iconst_u32(0);
            self.compare(
                if opcode == 6 {
                    Condition::SignedLessOrEqual
                } else {
                    Condition::SignedGreater
                },
                left,
                zero,
            )
        };
        Some(self.select_branch_target(condition, taken, after))
    }

    /// Emits the physical address behind a guest address.
    fn translate_address(&mut self, address: Value) -> (physical: Value)
        requires
            old(self).wf(),
            address < old(self).ops@.len(),
        ensures
            final(self).wf(),
            extends(*old(self), *final(self)),
            physical < final(self).ops@.len(),
            forall|m: Machine, reached: Machine| #[trigger]
                tracks(*old(self), m, Progress::Inside(reached)) ==> word(*final(self), m, physical)
                    == physical_address(word(*old(self), m, address)),
    {
        let segment_mask: Value = self.iconst_u32(0xe000_0000);
        let segment: Value = self.binary(BinaryOp::And, address, segment_mask);
        let kseg0: Value = self.iconst_u32(0x8000_0000);
        let kseg1: Value = self.iconst_u32(0xa000_0000);
        let is_kseg0: Value = self.compare(Condition::Equal, segment, kseg0);
        let is_kseg1: Value = self.compare(Condition::Equal, segment, kseg1);
        let mask: Value = self.iconst_u32(KSEG_MASK);
        let masked: Value = self.binary(BinaryOp::And, address, mask);
        let physical: Value = self.select(is_kseg0, masked, address);
        self.select(is_kseg1, masked, physical)
    }

    /// Emits the offset of an access in one framebuffer window, and whether it lies there.
    fn alias(&mut self, access: Value, base: u32, width: Width) -> (result: (Value, Value))
        requires
            old(self).wf(),
            access < old(self).ops@.len(),
        ensures
            final(self).wf(),
            extends(*old(self), *final(self)),
            result.0 < final(self).ops@.len(),
            result.1 < final(self).ops@.len(),
            forall|m: Machine, reached: Machine| #[trigger]
                tracks(*old(self), m, Progress::Inside(reached)) ==> {
                    &&& word(*final(self), m, result.0) == word(
                        *old(self),
                        m,
                        access,
                    ).wrapping_sub(base)
                    &&& wide(*final(self), m, result.1) == flag(
                        in_alias(word(*old(self), m, access), base, width),
                    )
                },
    {
        let start: Value = self.iconst_u32(base);
        let offset: Value = self.binary(BinaryOp::Sub, access, start);
        let limit: Value = self.iconst_u32(FRAMEBUFFER_MAP_SIZE - width.bytes());
        let inside: Value = self.compare(Condition::LessOrEqual, offset, limit);
        (offset, inside)
    }

    /// Emits the host address of an access; the block is left where there is none.
    fn locate(&mut self, access: Value, width: Width, plan: ExitPlan) -> (host: Value)
        requires
            old(self).wf(),
            access < old(self).ops@.len(),
            plan_wf(plan, old(self).ops@.len() as int),
        ensures
            final(self).wf(),
            host < final(self).ops@.len(),
            old(self).ops@.len() <= final(self).ops@.len(),
            forall|m: Machine, exit: BlockExit| #[trigger]
                tracks(*old(self), m, Progress::Left(exit)) ==> tracks(
                    *final(self),
                    m,
                    Progress::Left(exit),
                ),
            forall|m: Machine, reached: Machine| #[trigger]
                tracks(*old(self), m, Progress::Inside(reached)) ==> match host_address(
                    word(*old(self), m, access),
                    width,
                ) {
                    Some(expected) => {
                        &&& tracks(*final(self), m, Progress::Inside(reached))
                        &&& wide(*final(self), m, host) == expected
                        &&& forall|v: Value|
                            v < old(self).ops@.len() ==> #[trigger] wide(*final(self), m, v)
                                == wide(*old(self), m, v)
                    },
                    None => tracks(
                        *final(self),
                        m,
                        Progress::Left(exit_now(*old(self), m, plan)),
                    ),
                },
    {
        proof {
            assert(0u32 | 0 == 0 && 0u32 | 1 == 1 && 1u32 | 0 == 1 && 1u32 | 1 == 1)
                by (bit_vector);
        }
        let physical: Value = self.translate_address(access);
        let limit: Value = self.iconst_u32(RAM_SIZE - width.bytes());
        let in_ram: Value = self.compare(Condition::LessOrEqual, physical, limit);
        let (plain_offset, plain) = self.alias(access, VM_LCD_FB_ADDRESS, width);
        let (cached_offset, cached) = self.alias(access, LCD_FB_KSEG0_ADDRESS, width);
        let offset: Value = self.select(cached, cached_offset, plain_offset);
        let mapped: Value = self.binary(BinaryOp::Or, plain, cached);
        let (uncached_offset, uncached) = self.alias(access, LCD_FB_KSEG1_ADDRESS, width);
        let offset: Value = self.select(uncached, uncached_offset, offset);
        let mapped: Value = self.binary(BinaryOp::Or, mapped, uncached);
        let ghost before = *self;
        let host: Value = self.emit(
            Op::Locate {
                in_ram,
                ram_offset: physical,
                in_framebuffer: mapped,
                framebuffer_offset: offset,
                exit: plan,
            },
        );
        proof {
            assert(self.ops@.drop_last() =~= before.ops@);
            assert forall|m: Machine, exit: BlockExit| #[trigger]
                tracks(*old(self), m, Progress::Left(exit)) implies tracks(
                *self,
                m,
                Progress::Left(exit),
            ) by {
                assert(tracks(before, m, Progress::Left(exit)));
                reveal(tracks);
            }
            assert forall|m: Machine, reached: Machine| #[trigger]
                tracks(*old(self), m, Progress::Inside(reached)) implies match host_address(
                word(*old(self), m, access),
                width,
            ) {
                Some(expected) => {
                    &&& tracks(*self, m, Progress::Inside(reached))
                    &&& wide(*self, m, host) == expected
                    &&& forall|v: Value|
                        v < old(self).ops@.len() ==> #[trigger] wide(*self, m, v) == wide(
                            *old(self),
                            m,
                            v,
                        )
                },
                None => tracks(*self, m, Progress::Left(exit_now(*old(self), m, plan))),
            } by {
                assert(tracks(before, m, Progress::Inside(reached)));
                assert(exit_now(before, m, plan) == exit_now(*old(self), m, plan));
                let address = word(*old(self), m, access);
                assert(word(before, m, physical) == physical_address(address));
                assert((word(before, m, in_ram) != 0) == (physical_address(address) <= RAM_SIZE
                    - width.size()));
                assert((word(before, m, mapped) != 0) == (framebuffer_offset(
                    address,
                    width,
                ) is Some));
                assert(framebuffer_offset(address, width) is Some ==> word(before, m, offset)
                    == framebuffer_offset(address, width)->0);
                assert forall|v: Value| v < old(self).ops@.len() implies #[trigger] wide(
                    before,
                    m,
                    v,
                ) == wide(*old(self), m, v) by {}
                lemma_locate(before, *self, m, reached);
            }
        }
        host
    }

    /// Emits a store.
    fn store(&mut self, width: Width, host: Value, value: Value)
        requires
            old(self).wf(),
        ensures
            final(self).wf(),
            old(self).ops@.len() <= final(self).ops@.len(),
            forall|m: Machine, exit: BlockExit| #[trigger]
                tracks(*old(self), m, Progress::Left(exit)) ==> tracks(
                    *final(self),
                    m,
                    Progress::Left(exit),
                ),
            forall|m: Machine, p: Progress, v: Value|
                #![trigger tracks(*old(self), m, p), wide(*final(self), m, v)]
                tracks(*old(self), m, p) && v < old(self).ops@.len() ==> wide(*final(self), m, v)
                    == wide(*old(self), m, v),
            forall|m: Machine, reached: Machine| #[trigger]
                tracks(*old(self), m, Progress::Inside(reached)) ==> tracks(
                    *final(self),
                    m,
                    Progress::Inside(
                        Machine {
                            regs: reached.regs,
                            memory: reached.memory.store(
                                wide(*old(self), m, host) as int,
                                width,
                                word(*old(self), m, value),
                            ),
                        },
                    ),
                ),
    {
        let ghost before = *self;
        let _ = self.emit(Op::Store(width, host, value));
        proof {
            assert(self.ops@.drop_last() =~= before.ops@);
            assert(self.ops@.last() == Op::Store(width, host, value));
            assert forall|m: Machine, exit: BlockExit| #[trigger]
                tracks(before, m, Progress::Left(exit)) implies tracks(
                *self,
                m,
                Progress::Left(exit),
            ) by {
                reveal(tracks);
            }
            assert forall|m: Machine, p: Progress, v: Value|
                #![trigger tracks(before, m, p), wide(*self, m, v)]
                tracks(before, m, p) && v < before.ops@.len() implies wide(*self, m, v) == wide(
                before,
                m,
                v,
            ) by {
                reveal(tracks);
                reveal(wide);
            }
            assert forall|m: Machine, reached: Machine| #[trigger]
                tracks(before, m, Progress::Inside(reached)) implies tracks(
                *self,
                m,
                Progress::Inside(
                    Machine {
                        regs: reached.regs,
                        memory: reached.memory.store(
                            wide(before, m, host) as int,
                            width,
                            word(before, m, value),
                        ),
                    },
                ),
            ) by {
                reveal(tracks);
                reveal(wide);
                let values = values_of(before, m);
                assert(values_of(*self, m) =~= values.push(0));
                assert forall|r: int| 0 <= r < REGISTER_COUNT implies #[trigger] reached.regs[r] == (
                match self.values@[r] {
                    Some(value) => word_at(values.push(0), value),
                    None => m.regs[r],
                }) && (!self.dirty@[r] ==> reached.regs[r] == m.regs[r]) by {
                    assert(self.values@[r] == before.values@[r]);
                }
            }
        }
    }
}

impl LoweringState {
    /// Emits `(value << shift) | (other & mask)`.
    fn merge_shift_left(&mut self, value: Value, shift: u32, other: Value, mask: u32) -> (merged:
        Value)
        requires
            old(self).wf(),
            value < old(self).ops@.len(),
            other < old(self).ops@.len(),
            shift < 32,
        ensures
            final(self).wf(),
            extends(*old(self), *final(self)),
            merged < final(self).ops@.len(),
            forall|m: Machine, reached: Machine| #[trigger]
                tracks(*old(self), m, Progress::Inside(reached)) ==> word(*final(self), m, merged)
                    == (word(*old(self), m, value) << shift) | (word(*old(self), m, other) & mask),
    {
        proof {
            lemma_small_shift(shift);
        }
        let amount: Value = self.iconst_u32(shift);
        let shifted: Value = self.binary(BinaryOp::ShiftLeft, value, amount);
        let kept: Value = self.iconst_u32(mask);
        let masked: Value = self.binary(BinaryOp::And, other, kept);
        self.binary(BinaryOp::Or, shifted, masked)
    }

    /// Emits `(value >> shift) | (other & mask)`.
    fn merge_shift_right(&mut self, value: Value, shift: u32, other: Value, mask: u32) -> (merged:
        Value)
        requires
            old(self).wf(),
            value < old(self).ops@.len(),
            other < old(self).ops@.len(),
            shift < 32,
        ensures
            final(self).wf(),
            extends(*old(self), *final(self)),
            merged < final(self).ops@.len(),
            forall|m: Machine, reached: Machine| #[trigger]
                tracks(*old(self), m, Progress::Inside(reached)) ==> word(*final(self), m, merged)
                    == (word(*old(self), m, value) >> shift) | (word(*old(self), m, other) & mask),
    {
        proof {
            lemma_small_shift(shift);
        }
        let amount: Value = self.iconst_u32(shift);
        let shifted: Value = self.binary(BinaryOp::ShiftRight, value, amount);
        let kept: Value = self.iconst_u32(mask);
        let masked: Value = self.binary(BinaryOp::And, other, kept);
        self.binary(BinaryOp::Or, shifted, masked)
    }

    /// Emits `(other & mask) | (value >> shift)`.
    fn merge_store_right(&mut self, other: Value, mask: u32, value: Value, shift: u32) -> (merged:
        Value)
        requires
            old(self).wf(),
            value < old(self).ops@.len(),
            other < old(self).ops@.len(),
            shift < 32,
        ensures
            final(self).wf(),
            extends(*old(self), *final(self)),
            merged < final(self).ops@.len(),
            forall|m: Machine, reached: Machine| #[trigger]
                tracks(*old(self), m, Progress::Inside(reached)) ==> word(*final(self), m, merged)
                    == (word(*old(self), m, other) & mask) | (word(*old(self), m, value) >> shift),
    {
        proof {
            lemma_small_shift(shift);
        }
        let kept: Value = self.iconst_u32(mask);
        let masked: Value = self.binary(BinaryOp::And, other, kept);
        let amount: Value = self.iconst_u32(shift);
        let shifted: Value = self.binary(BinaryOp::ShiftRight, value, amount);
        self.binary(BinaryOp::Or, masked, shifted)
    }

    /// Emits `(other & mask) | (value << shift)`.
    fn merge_store_left(&mut self, other: Value, mask: u32, value: Value, shift: u32) -> (merged:
        Value)
        requires
            old(self).wf(),
            value < old(self).ops@.len(),
            other < old(self).ops@.len(),
            shift < 32,
        ensures
            final(self).wf(),
            extends(*old(self), *final(self)),
            merged < final(self).ops@.len(),
            forall|m: Machine, reached: Machine| #[trigger]
                tracks(*old(self), m, Progress::Inside(reached)) ==> word(*final(self), m, merged)
                    == (word(*old(self), m, other) & mask) | (word(*old(self), m, value) << shift),
    {
        proof {
            lemma_small_shift(shift);
        }
        let kept: Value = self.iconst_u32(mask);
        let masked: Value = self.binary(BinaryOp::And, other, kept);
        let amount: Value = self.iconst_u32(shift);
        let shifted: Value = self.binary(BinaryOp::ShiftLeft, value, amount);
        self.binary(BinaryOp::Or, masked, shifted)
    }

    /// Emits the case that the byte lane of an address selects.
    fn select_byte_case(
        &mut self,
        address: Value,
        first: Value,
        second: Value,
        third: Value,
        fourth: Value,
    ) -> (selected: Value)
        requires
            old(self).wf(),
            address < old(self).ops@.len(),
            first < old(self).ops@.len(),
            second < old(self).ops@.len(),
            third < old(self).ops@.len(),
            fourth < old(self).ops@.len(),
        ensures
            final(self).wf(),
            extends(*old(self), *final(self)),
            selected < final(self).ops@.len(),
            forall|m: Machine, reached: Machine| #[trigger]
                tracks(*old(self), m, Progress::Inside(reached)) ==> word(*final(self), m, selected)
                    == {
                    let lane = word(*old(self), m, address) & 3;
                    if lane == 0 {
                        word(*old(self), m, first)
                    } else if lane == 1 {
                        word(*old(self), m, second)
                    } else if lane == 2 {
                        word(*old(self), m, third)
                    } else {
                        word(*old(self), m, fourth)
                    }
                },
    {
        let three: Value = self.iconst_u32(3);
        let lane: Value = self.binary(BinaryOp::And, address, three);
        let two: Value = self.iconst_u32(2);
        let is_two: Value = self.compare(Condition::Equal, lane, two);
        let result: Value = self.select(is_two, third, fourth);
        let one: Value = self.iconst_u32(1);
        let is_one: Value = self.compare(Condition::Equal, lane, one);
        let result: Value = self.select(is_one, second, result);
        let zero: Value = self.iconst_u32(0);
        let is_zero: Value = self.compare(Condition::Equal, lane, zero);
        self.select(is_zero, first, result)
    }

    /// Emits the word that a load puts in its register.
    fn loaded(&mut self, instruction: u32, address: Value, host: Value) -> (value: Value)
        requires
            old(self).wf(),
            memory_instruction(instruction),
            !stores(instruction),
            address < old(self).ops@.len(),
            host < old(self).ops@.len(),
        ensures
            final(self).wf(),
            extends(*old(self), *final(self)),
            value < final(self).ops@.len(),
            forall|m: Machine, reached: Machine| #[trigger]
                tracks(*old(self), m, Progress::Inside(reached)) ==> word(*final(self), m, value)
                    == loaded_value(
                    instruction,
                    reached.memory.load(
                        wide(*old(self), m, host) as int,
                        access_width(instruction),
                    ),
                    reg(reached.regs, rt_of(instruction)),
                    word(*old(self), m, address),
                ),
    {
        proof {
            lemma_fields(instruction);
        }
        let opcode: u32 = instruction >> 26;
        let rt: usize = ((instruction >> 16) & 0x1f) as usize;
        if opcode == 0x20 {
            let value: Value = self.load(Width::Byte, host);
            self.unary(UnaryOp::SignExtendByte, value)
        } else if opcode == 0x24 {
            let value: Value = self.load(Width::Byte, host);
            self.unary(UnaryOp::ZeroExtend, value)
        } else if opcode == 0x21 {
            let value: Value = self.load(Width::Half, host);
            self.unary(UnaryOp::SignExtendHalf, value)
        } else if opcode == 0x25 {
            let value: Value = self.load(Width::Half, host);
            self.unary(UnaryOp::ZeroExtend, value)
        } else if opcode == 0x22 {
            let memory: Value = self.load(Width::Word, host);
            let current: Value = self.read_register(rt);
            let first: Value = self.merge_shift_left(memory, 24, current, 0x00ff_ffff);
            let second: Value = self.merge_shift_left(memory, 16, current, 0x0000_ffff);
            let third: Value = self.merge_shift_left(memory, 8, current, 0x0000_00ff);
            self.select_byte_case(address, first, second, third, memory)
        } else if opcode == 0x26 {
            let memory: Value = self.load(Width::Word, host);
            let current: Value = self.read_register(rt);
            let second: Value = self.merge_shift_right(memory, 8, current, 0xff00_0000);
            let third: Value = self.merge_shift_right(memory, 16, current, 0xffff_0000);
            let fourth: Value = self.merge_shift_right(memory, 24, current, 0xffff_ff00);
            self.select_byte_case(address, memory, second, third, fourth)
        } else {
            self.load(Width::Word, host)
        }
    }

    /// Emits the word that a store writes.
    fn stored(&mut self, instruction: u32, address: Value, host: Value) -> (value: Value)
        requires
            old(self).wf(),
            memory_instruction(instruction),
            stores(instruction),
            address < old(self).ops@.len(),
            host < old(self).ops@.len(),
        ensures
            final(self).wf(),
            extends(*old(self), *final(self)),
            value < final(self).ops@.len(),
            forall|m: Machine, reached: Machine| #[trigger]
                tracks(*old(self), m, Progress::Inside(reached)) ==> word(*final(self), m, value)
                    == stored_value(
                    instruction,
                    reached.memory.load(
                        wide(*old(self), m, host) as int,
                        access_width(instruction),
                    ),
                    reg(reached.regs, rt_of(instruction)),
                    word(*old(self), m, address),
                ),
    {
        proof {
            lemma_fields(instruction);
        }
        let opcode: u32 = instruction >> 26;
        let rt: usize = ((instruction >> 16) & 0x1f) as usize;
        if opcode == 0x2a {
            let memory: Value = self.load(Width::Word, host);
            let value: Value = self.read_register(rt);
            let first: Value = self.merge_store_right(memory, 0xffff_ff00, value, 24);
            let second: Value = self.merge_store_right(memory, 0xffff_0000, value, 16);
            let third: Value = self.merge_store_right(memory, 0xff00_0000, value, 8);
            self.select_byte_case(address, first, second, third, value)
        } else if opcode == 0x2e {
            let memory: Value = self.load(Width::Word, host);
            let value: Value = self.read_register(rt);
            let second: Value = self.merge_store_left(memory, 0x0000_00ff, value, 8);
            let third: Value = self.merge_store_left(memory, 0x0000_ffff, value, 16);
            let fourth: Value = self.merge_store_left(memory, 0x00ff_ffff, value, 24);
            self.select_byte_case(address, value, second, third, fourth)
        } else {
            self.read_register(rt)
        }
    }

    /// Lowers a load or store, with the exit to take where neither RAM nor the
    /// framebuffer serves it. Returns whether the instruction is one.
    pub fn lower_memory_instruction(&mut self, instruction: u32, slow_exit: ExitPlan) -> (supported:
        bool)
        requires
            old(self).wf(),
            plan_wf(slow_exit, old(self).ops@.len() as int),
        ensures
            final(self).wf(),
            supported == memory_instruction(instruction),
            !supported ==> *final(self) == *old(self),
            supported ==> {
                &&& old(self).ops@.len() <= final(self).ops@.len()
                &&& forall|m: Machine, exit: BlockExit| #[trigger]
                    tracks(*old(self), m, Progress::Left(exit)) ==> tracks(
                        *final(self),
                        m,
                        Progress::Left(exit),
                    )
                &&& forall|m: Machine, reached: Machine| #[trigger]
                    tracks(*old(self), m, Progress::Inside(reached)) ==> if natively_served(
                        reached.regs,
                        instruction,
                    ) {
                        &&& memory_effect(reached, instruction) is Some
                        &&& tracks(
                            *final(self),
                            m,
                            Progress::Inside(memory_effect(reached, instruction)->0),
                        )
                        &&& forall|v: Value|
                            v < old(self).ops@.len() ==> #[trigger] wide(*final(self), m, v)
                                == wide(*old(self), m, v)
                    } else {
                        tracks(*final(self), m, Progress::Left(exit_now(*old(self), m, slow_exit)))
                    }
            },
    {
        if !is_memory_instruction(instruction) {
            return false;
        }
        proof {
            lemma_fields(instruction);
        }
        let opcode: u32 = instruction >> 26;
        let rs: usize = ((instruction >> 21) & 0x1f) as usize;
        let rt: usize = ((instruction >> 16) & 0x1f) as usize;
        let width = if opcode == 0x20 || opcode == 0x24 || opcode == 0x28 {
            Width::Byte
        } else if opcode == 0x21 || opcode == 0x25 || opcode == 0x29 {
            Width::Half
        } else {
            Width::Word
        };
        let base: Value = self.read_register(rs);
        let offset: Value = self.iconst_u32(instruction as i16 as i32 as u32);
        let address: Value = self.binary(BinaryOp::Add, base, offset);
        let access: Value = if opcode == 0x22 || opcode == 0x26 || opcode == 0x2a || opcode == 0x2e {
            let mask: Value = self.iconst_u32(0xffff_fffc);
            self.binary(BinaryOp::And, address, mask)
        } else {
            address
        };
        let ghost addressed = *self;
        proof {
            assert forall|m: Machine, reached: Machine| #[trigger]
                tracks(*old(self), m, Progress::Inside(reached)) implies {
                &&& tracks(addressed, m, Progress::Inside(reached))
                &&& word(addressed, m, access) == access_address(reached.regs, instruction)
                &&& word(addressed, m, address) == effective_address(reached.regs, instruction)
                &&& exit_now(addressed, m, slow_exit) == exit_now(*old(self), m, slow_exit)
            } by {}
        }
        let host: Value = self.locate(access, width, slow_exit);
        let ghost located = *self;
        if (0x28 <= opcode && opcode <= 0x2e) || opcode == 0x38 {
            let value: Value = self.stored(instruction, address, host);
            self.store(width, host, value);
            if opcode == 0x38 {
                let success: Value = self.iconst_u32(1);
                self.write_register(rt, success);
            }
        } else {
            let value: Value = self.loaded(instruction, address, host);
            self.write_register(rt, value);
        }
        proof {
            assert forall|m: Machine, reached: Machine| #[trigger]
                tracks(*old(self), m, Progress::Inside(reached)) implies if natively_served(
                reached.regs,
                instruction,
            ) {
                &&& memory_effect(reached, instruction) is Some
                &&& tracks(
                    *self,
                    m,
                    Progress::Inside(memory_effect(reached, instruction)->0),
                )
                &&& forall|v: Value|
                    v < old(self).ops@.len() ==> #[trigger] wide(*self, m, v) == wide(
                        *old(self),
                        m,
                        v,
                    )
            } else {
                tracks(*self, m, Progress::Left(exit_now(*old(self), m, slow_exit)))
            } by {
                assert(tracks(addressed, m, Progress::Inside(reached)));
                if natively_served(reached.regs, instruction) {
                    assert(tracks(located, m, Progress::Inside(reached)));
                    assert(word(located, m, address) == word(addressed, m, address));
                    assert(wide(located, m, host) == host_address(
                        access_address(reached.regs, instruction),
                        width,
                    )->0);
                    assert forall|v: Value| v < old(self).ops@.len() implies #[trigger] wide(
                        *self,
                        m,
                        v,
                    ) == wide(*old(self), m, v) by {
                        assert(wide(located, m, v) == wide(addressed, m, v));
                    }
                }
            }
        }
        true
    }

    /// The exit that writes back every changed register.
    pub fn exit_plan(&self, pc: ExitPc, completed: u64) -> (plan: ExitPlan)
        requires
            self.wf(),
            pc matches ExitPc::Computed(value) ==> value < self.ops@.len(),
        ensures
            plan_wf(plan, self.ops@.len() as int),
            forall|m: Machine, reached: Machine| #[trigger]
                tracks(*self, m, Progress::Inside(reached)) ==> exit_now(*self, m, plan) == (
                BlockExit {
                    regs: reached.regs,
                    pc: match pc {
                        ExitPc::Constant(pc) => pc,
                        ExitPc::Computed(value) => word(*self, m, value),
                    },
                    memory: reached.memory,
                    completed,
                }),
    {
        let mut stores: Vec<Option<Value>> = Vec::new();
        let mut register: usize = 0;
        while register < REGISTER_COUNT
            invariant
                self.wf(),
                register <= REGISTER_COUNT,
                stores@.len() == register,
                forall|r: int|
                    0 <= r < register ==> #[trigger] stores@[r] == (if self.dirty@[r] {
                        self.values@[r]
                    } else {
                        None
                    }),
            decreases REGISTER_COUNT - register,
        {
            stores.push(
                if self.dirty[register] {
                    self.values[register]
                } else {
                    None
                },
            );
            register = register + 1;
        }
        let plan = ExitPlan { stores, pc, completed };
        proof {
            assert forall|r: int| 0 <= r < REGISTER_COUNT implies match #[trigger] plan.stores@[r] {
                Some(value) => value < self.ops@.len(),
                None => true,
            } by {
                assert(plan.stores@[r] == (if self.dirty@[r] {
                    self.values@[r]
                } else {
                    None
                }));
                let _ = self.values@[r];
            }
            assert forall|m: Machine, reached: Machine| #[trigger]
                tracks(*self, m, Progress::Inside(reached)) implies exit_now(*self, m, plan) == (
            BlockExit {
                regs: reached.regs,
                pc: match pc {
                    ExitPc::Constant(pc) => pc,
                    ExitPc::Computed(value) => word(*self, m, value),
                },
                memory: reached.memory,
                completed,
            }) by {
                reveal(tracks);
                reveal(wide);
                reveal(exit_now);
                let left = exit_now(*self, m, plan);
                assert forall|r: int| 0 <= r < REGISTER_COUNT implies left.regs[r]
                    == reached.regs[r] by {
                    let _ = self.values@[r];
                    assert(plan.stores@[r] == (if self.dirty@[r] {
                        self.values@[r]
                    } else {
                        None
                    }));
                }
                assert(left.regs =~= reached.regs);
            }
        }
        plan
    }
}

/// What emitting a [`Op::Locate`] does on a machine that is still inside the block.
proof fn lemma_locate(
    before: LoweringState,
    after: LoweringState,
    machine: Machine,
    reached: Machine,
)
    requires
        before.wf(),
        before.ops@.len() <= usize::MAX,
        after.ops@.len() == before.ops@.len() + 1,
        after.ops@.drop_last() == before.ops@,
        after.ops@.last() is Locate,
        after.values@ == before.values@,
        after.dirty@ == before.dirty@,
        tracks(before, machine, Progress::Inside(reached)),
    ensures
        ({
            let op = after.ops@.last();
            let host = if word(before, machine, op->in_ram) != 0 {
                Some(word(before, machine, op->ram_offset) as u64)
            } else if word(before, machine, op->in_framebuffer) != 0 {
                Some(
                    (FRAMEBUFFER_HOST_BASE + word(
                        before,
                        machine,
                        op->framebuffer_offset,
                    )) as u64,
                )
            } else {
                None
            };
            match host {
                Some(host) => {
                    &&& tracks(after, machine, Progress::Inside(reached))
                    &&& wide(after, machine, before.ops@.len() as usize) == host
                    &&& forall|v: Value|
                        v < before.ops@.len() ==> #[trigger] wide(after, machine, v) == wide(
                            before,
                            machine,
                            v,
                        )
                },
                None => tracks(
                    after,
                    machine,
                    Progress::Left(exit_now(before, machine, op->exit)),
                ),
            }
        }),
{
    reveal(tracks);
    reveal(wide);
    reveal(exit_now);
    let op = after.ops@.last();
    let values = values_of(before, machine);
    if word(before, machine, op->in_ram) != 0 || word(before, machine, op->in_framebuffer) != 0 {
        let host = if word(before, machine, op->in_ram) != 0 {
            word(before, machine, op->ram_offset) as u64
        } else {
            (FRAMEBUFFER_HOST_BASE + word(before, machine, op->framebuffer_offset)) as u64
        };
        assert(values_of(after, machine) =~= values.push(host));
        assert forall|r: int| 0 <= r < REGISTER_COUNT implies #[trigger] reached.regs[r] == (
        match after.values@[r] {
            Some(value) => word_at(values.push(host), value),
            None => machine.regs[r],
        }) && (!after.dirty@[r] ==> reached.regs[r] == machine.regs[r]) by {
            assert(after.values@[r] == before.values@[r]);
        }
    }
}

proof fn lemma_small_shift(shift: u32)
    by (bit_vector)
    requires
        shift < 32,
    ensures
        shift & 0x1f == shift,
{
}

} // verus!
