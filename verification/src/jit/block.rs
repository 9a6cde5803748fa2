//! Which guest instructions form a block, what a block does, and its translation.

use crate::isa::{
    branch_registers, branch_target, control_flow, delay_instruction, is_control_flow,
    is_memory_instruction, is_supported_delay_instruction, is_supported_register_instruction,
    lowerable_branch, memory_effect, memory_instruction, natively_served, register_effect,
    register_instruction, supported_branch, Machine, REGISTER_COUNT,
};
use crate::jit::ir::{BlockExit, ExitPc, LoweredBlock};
use crate::jit::lower::{exit_now, tracks, LoweringState, Progress};
use vstd::prelude::*;

verus! {

/// Shortest block that is compiled as soon as it is hot.
pub const MIN_COMPILED_BLOCK_LEN: usize = 4;

/// Why a block cannot be compiled.
#[derive(Clone, Copy, Debug, PartialEq, Eq, Structural)]
pub enum JitFailureReason {
    /// It can, or nothing is known.
    Unknown,
    UnsupportedBranch,
    UnsupportedDelaySlot,
    UnsupportedInstruction,
    BlockTooShort,
}

impl JitFailureReason {
    /// The reason, as a report names it.
    pub open spec fn text(self) -> Seq<char> {
        match self {
            JitFailureReason::Unknown => "unknown"@,
            JitFailureReason::UnsupportedBranch => "unsupported_branch"@,
            JitFailureReason::UnsupportedDelaySlot => "unsupported_delay_slot"@,
            JitFailureReason::UnsupportedInstruction => "unsupported_instruction"@,
            JitFailureReason::BlockTooShort => "block_too_short"@,
        }
    }

    /// How reports name the reason.
    pub fn as_str(self) -> (text: &'static str)
        ensures
            text@ == self.text(),
    {
        match self {
            JitFailureReason::Unknown => "unknown",
            JitFailureReason::UnsupportedBranch => "unsupported_branch",
            JitFailureReason::UnsupportedDelaySlot => "unsupported_delay_slot",
            JitFailureReason::UnsupportedInstruction => "unsupported_instruction",
            JitFailureReason::BlockTooShort => "block_too_short",
        }
    }
}

impl Default for JitFailureReason {
    fn default() -> (reason: JitFailureReason)
        ensures
            reason == JitFailureReason::Unknown,
    {
        JitFailureReason::Unknown
    }
}

/// The compilable prefix of a block.
#[derive(Clone, Copy, Debug, PartialEq, Eq, Structural)]
pub struct CandidateAnalysis {
    pub instruction_count: usize,
    pub failure_reason: JitFailureReason,
    pub blocking_instruction: u32,
}

/// Implemented instructions that fall through to the next one.
pub open spec fn straight(instruction: u32) -> bool {
    !control_flow(instruction) && (memory_instruction(instruction) || register_instruction(
        instruction,
    ))
}

/// First position from `index` on that does not hold a straight instruction.
pub open spec fn straight_end(code: Seq<u32>, index: int) -> int
    decreases code.len() - index,
{
    if 0 <= index < code.len() && straight(code[index]) {
        straight_end(code, index + 1)
    } else {
        index
    }
}

/// Whether the straight instructions end in a branch that can be compiled.
pub open spec fn ends_in_branch(code: Seq<u32>) -> bool {
    let end = straight_end(code, 0);
    &&& end + 1 < code.len()
    &&& control_flow(code[end])
    &&& supported_branch(code[end])
    &&& delay_instruction(code[end + 1])
}

/// Number of instructions that a compiled block covers.
pub open spec fn candidate_len(code: Seq<u32>) -> int {
    straight_end(code, 0) + if ends_in_branch(code) {
        2int
    } else {
        0
    }
}

/// Why a block does not extend beyond [`candidate_len`], with the instruction at fault.
pub open spec fn candidate_failure(code: Seq<u32>) -> (JitFailureReason, u32) {
    let end = straight_end(code, 0);
    if end < code.len() && control_flow(code[end]) && !supported_branch(code[end]) {
        (JitFailureReason::UnsupportedBranch, code[end])
    } else if end < code.len() && control_flow(code[end]) && end + 1 >= code.len() {
        (JitFailureReason::UnsupportedDelaySlot, 0)
    } else if end < code.len() && control_flow(code[end]) && !delay_instruction(code[end + 1]) {
        (JitFailureReason::UnsupportedDelaySlot, code[end + 1])
    } else if end < code.len() && !control_flow(code[end]) {
        (JitFailureReason::UnsupportedInstruction, code[end])
    } else if candidate_len(code) < MIN_COMPILED_BLOCK_LEN {
        (JitFailureReason::BlockTooShort, 0)
    } else {
        (JitFailureReason::Unknown, 0)
    }
}

/// Address of an instruction of a block.
pub open spec fn pc_at(start: u32, index: int) -> u32 {
    start.wrapping_add((index as u32).wrapping_mul(4))
}

/// Effect of one straight instruction inside a block.
pub open spec fn straight_step(
    machine: Machine,
    instruction: u32,
    pc: u32,
    completed: u64,
) -> Progress {
    if memory_instruction(instruction) {
        if natively_served(machine.regs, instruction) {
            Progress::Inside(memory_effect(machine, instruction)->0)
        } else {
            Progress::Left(
                BlockExit { regs: machine.regs, pc, memory: machine.memory, completed },
            )
        }
    } else {
        Progress::Inside(
            Machine {
                regs: register_effect(machine.regs, instruction),
                memory: machine.memory,
            },
        )
    }
}

/// Effect of the first `count` instructions, all straight.
pub open spec fn straight_progress(
    start: u32,
    code: Seq<u32>,
    count: int,
    machine: Machine,
) -> Progress
    decreases count,
{
    if count <= 0 {
        Progress::Inside(machine)
    } else {
        match straight_progress(start, code, count - 1, machine) {
            Progress::Inside(reached) => straight_step(
                reached,
                code[count - 1],
                pc_at(start, count - 1),
                (count - 1) as u64,
            ),
            Progress::Left(exit) => Progress::Left(exit),
        }
    }
}

/// Effect of a branch and its delay slot. A delay slot that needs the slow path
/// leaves the block before the branch.
pub open spec fn branch_exit(
    machine: Machine,
    branch: u32,
    delay: u32,
    pc: u32,
    completed: u64,
) -> BlockExit {
    let linked = Machine {
        regs: branch_registers(machine.regs, branch, pc),
        memory: machine.memory,
    };
    match straight_step(linked, delay, pc.wrapping_add(4), completed) {
        Progress::Inside(reached) => BlockExit {
            regs: reached.regs,
            pc: branch_target(machine.regs, branch, pc),
            memory: reached.memory,
            completed: (completed + 2) as u64,
        },
        Progress::Left(_) => BlockExit {
            regs: machine.regs,
            pc,
            memory: machine.memory,
            completed,
        },
    }
}

/// What a block of guest code does to a machine.
pub open spec fn block_exit(start: u32, code: Seq<u32>, machine: Machine) -> BlockExit {
    let end = straight_end(code, 0);
    match straight_progress(start, code, end, machine) {
        Progress::Left(exit) => exit,
        Progress::Inside(reached) => if ends_in_branch(code) {
            branch_exit(reached, code[end], code[end + 1], pc_at(start, end), end as u64)
        } else {
            BlockExit {
                regs: reached.regs,
                pc: pc_at(start, end),
                memory: reached.memory,
                completed: end as u64,
            }
        },
    }
}

/// The end of the straight instructions lies inside the code.
pub proof fn lemma_straight_end(code: Seq<u32>, index: int)
    requires
        0 <= index <= code.len(),
    ensures
        index <= straight_end(code, index) <= code.len(),
        straight_end(code, index) < code.len() ==> !straight(code[straight_end(code, index)]),
    decreases code.len() - index,
{
    if index < code.len() && straight(code[index]) {
        lemma_straight_end(code, index + 1);
    }
}

/// Analyzes how much of a block can be compiled.
pub fn analyze_candidate(instructions: &[u32]) -> (analysis: CandidateAnalysis)
    ensures
        analysis.instruction_count == candidate_len(instructions@),
        candidate_failure(instructions@) == (
            analysis.failure_reason,
            analysis.blocking_instruction,
        ),
        analysis.instruction_count <= instructions@.len(),
{
    let mut index: usize = 0;
    while index < instructions.len()
        invariant
            index <= instructions@.len(),
            straight_end(instructions@, 0) == straight_end(instructions@, index as int),
        decreases instructions@.len() - index,
    {
        let instruction: u32 = instructions[index];
        if is_control_flow(instruction) {
            if !lowerable_branch(instruction) {
                return CandidateAnalysis {
                    instruction_count: index,
                    failure_reason: JitFailureReason::UnsupportedBranch,
                    blocking_instruction: instruction,
                };
            }
            if index + 1 >= instructions.len() {
                return CandidateAnalysis {
                    instruction_count: index,
                    failure_reason: JitFailureReason::UnsupportedDelaySlot,
                    blocking_instruction: 0,
                };
            }
            if !is_supported_delay_instruction(instructions[index + 1]) {
                return CandidateAnalysis {
                    instruction_count: index,
                    failure_reason: JitFailureReason::UnsupportedDelaySlot,
                    blocking_instruction: instructions[index + 1],
                };
            }
            return CandidateAnalysis {
                instruction_count: index + 2,
                failure_reason: if index + 2 < MIN_COMPILED_BLOCK_LEN {
                    JitFailureReason::BlockTooShort
                } else {
                    JitFailureReason::Unknown
                },
                blocking_instruction: 0,
            };
        }
        if !is_memory_instruction(instruction) && !is_supported_register_instruction(instruction) {
            return CandidateAnalysis {
                instruction_count: index,
                failure_reason: JitFailureReason::UnsupportedInstruction,
                blocking_instruction: instruction,
            };
        }
        index = index + 1;
    }
    CandidateAnalysis {
        instruction_count: index,
        failure_reason: if index < MIN_COMPILED_BLOCK_LEN {
            JitFailureReason::BlockTooShort
        } else {
            JitFailureReason::Unknown
        },
        blocking_instruction: 0,
    }
}

/// Number of instructions that a compiled block covers.
pub fn candidate_instruction_count(instructions: &[u32]) -> (count: usize)
    ensures
        count == candidate_len(instructions@),
{
    analyze_candidate(instructions).instruction_count
}

/// Translates the compilable prefix of a block; nothing where it is empty.
pub fn lower_block(start: u32, instructions: &[u32]) -> (block: Option<LoweredBlock>)
    ensures
        block is None <==> candidate_len(instructions@) == 0,
        block matches Some(block) ==> {
            &&& block.instruction_count == candidate_len(instructions@)
            &&& forall|machine: Machine|
                machine.regs.len() == REGISTER_COUNT ==> #[trigger] block.result(
                    machine.regs,
                    machine.memory,
                ) == block_exit(start, instructions@, machine)
        },
{
    let mut state = LoweringState::new();
    let mut index: usize = 0;
    while index < instructions.len()
        invariant_except_break
            straight_end(instructions@, 0) == straight_end(instructions@, index as int),
        invariant
            index <= instructions@.len(),
            state.wf(),
            forall|machine: Machine|
                machine.regs.len() == REGISTER_COUNT ==> tracks(
                    state,
                    machine,
                    #[trigger] straight_progress(start, instructions@, index as int, machine),
                ),
        ensures
            straight_end(instructions@, 0) == index,
            !ends_in_branch(instructions@),
        decreases instructions@.len() - index,
    {
        let instruction: u32 = instructions[index];
        let pc: u32 = start.wrapping_add((index as u32).wrapping_mul(4));
        let slow_exit = state.exit_plan(ExitPc::Constant(pc), index as u64);
        if is_control_flow(instruction) {
            if index + 1 >= instructions.len() || !is_supported_delay_instruction(
                instructions[index + 1],
            ) {
                break;
            }
            return lower_branch_end(state, start, instructions, index);
        }
        let ghost before = state;
        if is_memory_instruction(instruction) {
            let _ = state.lower_memory_instruction(instruction, slow_exit);
        } else if !state.lower_register_instruction(instruction) {
            break;
        }
        proof {
            assert(straight(instruction));
            assert forall|machine: Machine| machine.regs.len() == REGISTER_COUNT implies tracks(
                state,
                machine,
                #[trigger] straight_progress(start, instructions@, index + 1, machine),
            ) by {
                let progress = straight_progress(start, instructions@, index as int, machine);
                assert(tracks(before, machine, progress));
                match progress {
                    Progress::Inside(reached) => {
                        assert(tracks(before, machine, Progress::Inside(reached)));
                    },
                    Progress::Left(exit) => {
                        assert(tracks(before, machine, Progress::Left(exit)));
                    },
                }
            }
        }
        index = index + 1;
    }
    if index == 0 {
        return None;
    }
    let exit = state.exit_plan(
        ExitPc::Constant(start.wrapping_add((index as u32).wrapping_mul(4))),
        index as u64,
    );
    let ghost reached_state = state;
    let ghost plan = exit;
    let block = LoweredBlock { ops: state.ops, exit, instruction_count: index };
    proof {
        assert forall|machine: Machine| machine.regs.len() == REGISTER_COUNT implies #[trigger] block.result(
            machine.regs,
            machine.memory,
        ) == block_exit(start, instructions@, machine) by {
            let progress = straight_progress(start, instructions@, index as int, machine);
            assert(tracks(reached_state, machine, progress));
            lemma_result(reached_state, block, machine, progress);
        }
    }
    Some(block)
}

/// The result of a block, from what its operations and its exit plan do.
proof fn lemma_result(
    state: LoweringState,
    block: LoweredBlock,
    machine: Machine,
    progress: Progress,
)
    requires
        block.ops@ == state.ops@,
        tracks(state, machine, progress),
    ensures
        block.result(machine.regs, machine.memory) == exit_now(state, machine, block.exit),
        progress matches Progress::Left(exit) ==> exit_now(state, machine, block.exit) == exit,
        progress matches Progress::Inside(reached) ==> tracks(
            state,
            machine,
            Progress::Inside(reached),
        ),
{
    reveal(tracks);
    reveal(exit_now);
}

/// Ends a block with the branch at `index` and its delay slot, where the branch
/// is implemented; else in front of it.
fn lower_branch_end(
    state: LoweringState,
    start: u32,
    instructions: &[u32],
    index: usize,
) -> (block: Option<LoweredBlock>)
    requires
        state.wf(),
        index + 1 < instructions@.len(),
        straight_end(instructions@, 0) == index,
        control_flow(instructions@[index as int]),
        delay_instruction(instructions@[index + 1]),
        forall|machine: Machine|
            machine.regs.len() == REGISTER_COUNT ==> tracks(
                state,
                machine,
                #[trigger] straight_progress(start, instructions@, index as int, machine),
            ),
    ensures
        block is None <==> candidate_len(instructions@) == 0,
        block matches Some(block) ==> {
            &&& block.instruction_count == candidate_len(instructions@)
            &&& forall|machine: Machine|
                machine.regs.len() == REGISTER_COUNT ==> #[trigger] block.result(
                    machine.regs,
                    machine.memory,
                ) == block_exit(start, instructions@, machine)
        },
{
    let ghost before = state;
    let mut state = state;
    let instruction: u32 = instructions[index];
    let delay: u32 = instructions[index + 1];
    let pc: u32 = start.wrapping_add((index as u32).wrapping_mul(4));
    let slow_exit = state.exit_plan(ExitPc::Constant(pc), index as u64);
    match state.lower_branch(instruction, pc) {
        None => {
            if index == 0 {
                return None;
            }
            let block = LoweredBlock {
                ops: state.ops,
                exit: slow_exit,
                instruction_count: index,
            };
            proof {
                assert forall|machine: Machine|
                    machine.regs.len() == REGISTER_COUNT implies #[trigger] block.result(
                    machine.regs,
                    machine.memory,
                ) == block_exit(start, instructions@, machine) by {
                    let progress = straight_progress(start, instructions@, index as int, machine);
                    assert(tracks(before, machine, progress));
                    lemma_result(before, block, machine, progress);
                }
            }
            Some(block)
        },
        Some(target) => {
            let ghost branched = state;
            let ghost plan = slow_exit;
            if is_memory_instruction(delay) {
                let _ = state.lower_memory_instruction(delay, slow_exit);
            } else {
                let _ = state.lower_register_instruction(delay);
            }
            let ghost delayed = state;
            let exit = state.exit_plan(ExitPc::Computed(target), (index + 2) as u64);
            let block = LoweredBlock { ops: state.ops, exit, instruction_count: index + 2 };
            proof {
                assert forall|machine: Machine|
                    machine.regs.len() == REGISTER_COUNT implies #[trigger] block.result(
                    machine.regs,
                    machine.memory,
                ) == block_exit(start, instructions@, machine) by {
                    let progress = straight_progress(start, instructions@, index as int, machine);
                    assert(tracks(before, machine, progress));
                    match progress {
                        Progress::Left(left) => {
                            assert(tracks(before, machine, Progress::Left(left)));
                            assert(tracks(branched, machine, Progress::Left(left)));
                            assert(tracks(delayed, machine, Progress::Left(left)));
                            lemma_result(delayed, block, machine, Progress::Left(left));
                        },
                        Progress::Inside(reached) => {
                            assert(tracks(before, machine, Progress::Inside(reached)));
                            let linked = Machine {
                                regs: branch_registers(reached.regs, instruction, pc),
                                memory: reached.memory,
                            };
                            assert(tracks(branched, machine, Progress::Inside(linked)));
                            assert(exit_now(branched, machine, plan) == exit_now(
                                before,
                                machine,
                                plan,
                            ));
                            match straight_step(linked, delay, pc.wrapping_add(4), index as u64) {
                                Progress::Inside(done) => {
                                    assert(tracks(delayed, machine, Progress::Inside(done)));
                                    lemma_result(
                                        delayed,
                                        block,
                                        machine,
                                        Progress::Inside(done),
                                    );
                                },
                                Progress::Left(_) => {
                                    let left = exit_now(branched, machine, plan);
                                    assert(tracks(delayed, machine, Progress::Left(left)));
                                    lemma_result(delayed, block, machine, Progress::Left(left));
                                },
                            }
                        },
                    }
                }
            }
            Some(block)
        },
    }
}

} // verus!
