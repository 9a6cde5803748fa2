use dingooemu::cpu::{Cpu, Registers};
use dingooemu::isa::{HI_INDEX, LO_INDEX};
use dingooemu::jit::block::{
    analyze_candidate, lower_block, JitFailureReason, MIN_COMPILED_BLOCK_LEN,
};
use dingooemu::jit::engine::{
    compile_cooldown_frames, CompiledBlock, JitAction, JitEngine, RunOrigin, COMPILE_COOLDOWN_FRAMES,
    HOT_BLOCK_THRESHOLD, SHORT_BLOCK_HOT_THRESHOLD,
};
use dingooemu::jit::ir::{
    register_offset, LoweredBlock, GPR_OFFSET, HI_OFFSET, LO_OFFSET, PC_OFFSET,
};
use dingooemu::memory::{Memory, VM_LCD_FB_ADDRESS};

// Runs blocks as they were lowered.
struct Host {
    blocks: Vec<LoweredBlock>,
}

fn run(block: &LoweredBlock, registers: &mut Registers, memory: &mut Memory) -> u64 {
    let mut file = registers.to_file();
    let (pc, completed) = block.evaluate(&mut file, memory);
    registers.set_file(&file);
    registers.pc = pc;
    completed
}

impl Host {
    fn new() -> Host {
        Host { blocks: Vec::new() }
    }

    fn execute(
        &mut self,
        engine: &mut JitEngine,
        start: u32,
        instructions: &[u32],
        registers: &mut Registers,
        memory: &mut Memory,
    ) -> Option<u64> {
        let limit = instructions.len();
        let mut action = engine.request(start, instructions, limit);
        if action == JitAction::Compile {
            let compiled = lower_block(start, instructions).map(|lowered| {
                let compiled = CompiledBlock {
                    function: self.blocks.len(),
                    instruction_count: lowered.instruction_count,
                };
                self.blocks.push(lowered);
                compiled
            });
            action = engine.finish_compile(start, compiled, 1_000, limit);
        }
        match action {
            JitAction::Run(block, origin) => {
                let completed = run(&self.blocks[block.function], registers, memory);
                engine.finish_run(start, origin, block, completed)
            }
            _ => None,
        }
    }
}

const HOT_CODE: [u32; 4] = [
    (0x09 << 26) | (8 << 16) | 1,
    (0x09 << 26) | (8 << 21) | (8 << 16) | 1,
    (8 << 21) | (8 << 16) | (9 << 11) | 0x21,
    (9 << 21) | (8 << 16) | (10 << 11) | 0x26,
];

#[test]
fn register_layout_matches_jit_offsets() {
    assert_eq!(register_offset(0), GPR_OFFSET as i32);
    assert_eq!(register_offset(HI_INDEX), HI_OFFSET as i32);
    assert_eq!(register_offset(LO_INDEX), LO_OFFSET as i32);
    assert_eq!(register_offset(31), 124);
    assert_eq!(HI_OFFSET, 128);
    assert_eq!(LO_OFFSET, 132);
    assert_eq!(PC_OFFSET, 136);
}

#[test]
fn compilation_budget_preserves_colliding_hot_blocks() {
    let first_start = 0x1000;
    let second_start = first_start + 0x4000;
    let mut engine = JitEngine::new(true);
    let mut host = Host::new();
    let mut registers = Registers::new(first_start);
    let mut memory = Memory::new();

    for _ in 0..HOT_BLOCK_THRESHOLD {
        let _ = host.execute(&mut engine, first_start, &HOT_CODE, &mut registers, &mut memory);
    }
    assert!(engine.entries[&first_start].block.is_some());

    registers.pc = second_start;
    for _ in 0..HOT_BLOCK_THRESHOLD {
        assert!(host
            .execute(&mut engine, second_start, &HOT_CODE, &mut registers, &mut memory)
            .is_none());
    }
    assert!(engine.entries[&second_start].block.is_none());

    for _ in 0..=COMPILE_COOLDOWN_FRAMES {
        engine.begin_frame();
    }
    assert!(host
        .execute(&mut engine, second_start, &HOT_CODE, &mut registers, &mut memory)
        .is_some());
    assert!(engine.entries[&first_start].block.is_some());
    assert!(engine.entries[&second_start].block.is_some());
}

#[test]
fn short_blocks_compile_only_after_the_higher_hot_threshold() {
    let start = 0x1800;
    let instructions = [
        (0x09 << 26) | (8 << 16) | 1,
        (0x09 << 26) | (8 << 21) | (8 << 16) | 1,
    ];
    let mut engine = JitEngine::new(true);
    let mut host = Host::new();
    let mut registers = Registers::new(start);
    let mut memory = Memory::new();

    for _ in 0..SHORT_BLOCK_HOT_THRESHOLD - 1 {
        assert!(host
            .execute(&mut engine, start, &instructions, &mut registers, &mut memory)
            .is_none());
    }
    assert!(engine.entries[&start].block.is_none());

    let completed =
        host.execute(&mut engine, start, &instructions, &mut registers, &mut memory);
    assert_eq!(completed, Some(2));
    assert!(engine.entries[&start].block.is_some());
}

#[test]
fn clearing_cache_recreates_compiler_after_native_code_generation() {
    let start = 0x1000;
    let mut engine = JitEngine::new(true);
    let mut host = Host::new();
    let mut registers = Registers::new(start);
    let mut memory = Memory::new();

    for _ in 0..HOT_BLOCK_THRESHOLD {
        let _ = host.execute(&mut engine, start, &HOT_CODE, &mut registers, &mut memory);
    }
    assert_eq!(engine.compiled_block_count, 1);
    assert_eq!(host.blocks.len(), 1);

    if engine.clear() {
        host = Host::new();
    }

    assert!(engine.entries.is_empty());
    assert!(engine.fast_entries.iter().all(|entry| entry.block.is_none()));
    assert_eq!(engine.compiled_block_count, 0);
    assert_eq!(host.blocks.len(), 0);
    assert!(!engine.clear());
}

#[test]
fn compiled_block_matches_interpreter_state() {
    let start = 0x1000;
    let instructions = [
        (0x09 << 26) | (8 << 16) | 5,                  // addiu t0, zero, 5
        (0x09 << 26) | (8 << 21) | (9 << 16) | 0xfffe, // addiu t1, t0, -2
        (9 << 16) | (10 << 11) | (4 << 6),             // sll t2, t1, 4
        (0x2b << 26) | (10 << 16) | 0x0200,            // sw t2, 0x200(zero)
        (0x23 << 26) | (11 << 16) | 0x0200,            // lw t3, 0x200(zero)
        (0x04 << 26) | (11 << 21) | (10 << 16) | 2,    // beq t3, t2, +2
        (0x09 << 26) | (12 << 16) | 7,                 // addiu t4, zero, 7
    ];

    let block = lower_block(start, &instructions).unwrap();
    assert_eq!(block.instruction_count, instructions.len());

    let mut jit_registers = Registers::new(start);
    let mut jit_memory = Memory::new();
    let completed = run(&block, &mut jit_registers, &mut jit_memory);
    assert_eq!(completed, instructions.len() as u64);

    let mut interpreter = Cpu::new(start);
    let mut interpreter_memory = Memory::new();
    interpreter.start();
    for &instruction in &instructions {
        assert!(interpreter
            .step_fetched_unaccounted(instruction, &mut interpreter_memory)
            .unwrap());
    }

    assert_eq!(jit_registers.gpr, interpreter.regs.gpr);
    assert_eq!(jit_registers.pc, interpreter.regs.pc);
    assert_eq!(jit_registers.hi, interpreter.regs.hi);
    assert_eq!(jit_registers.lo, interpreter.regs.lo);
    assert_eq!(jit_memory.read_u32(0x200).unwrap(), 48);
    assert_eq!(
        jit_memory.read_u32(0x200).unwrap(),
        interpreter_memory.read_u32(0x200).unwrap()
    );
}

#[test]
fn compilation_cooldown_scales_conservatively_with_compile_time() {
    assert_eq!(compile_cooldown_frames(1_500), 1);
    assert_eq!(compile_cooldown_frames(1_501), 2);
    assert_eq!(compile_cooldown_frames(3_001), 3);
    assert_eq!(compile_cooldown_frames(6_001), 5);
    assert_eq!(compile_cooldown_frames(20_000), 5);
}

#[test]
fn memory_instruction_in_branch_delay_slot_matches_interpreter() {
    let start = 0x2000;
    let instructions = [
        (0x09 << 26) | (29 << 16) | 0x0200,    // addiu sp, zero, 0x200
        (0x09 << 26) | (2 << 16) | 0x1234,     // addiu v0, zero, 0x1234
        (0x04 << 26) | 2,                      // beq zero, zero, +2
        (0x2b << 26) | (29 << 21) | (2 << 16), // sw v0, 0(sp) (delay slot)
    ];

    let block = lower_block(start, &instructions).unwrap();
    assert_eq!(block.instruction_count, instructions.len());

    let mut jit_registers = Registers::new(start);
    let mut jit_memory = Memory::new();
    let completed = run(&block, &mut jit_registers, &mut jit_memory);

    let mut interpreter = Cpu::new(start);
    let mut interpreter_memory = Memory::new();
    interpreter.start();
    for &instruction in &instructions {
        assert!(interpreter
            .step_fetched_unaccounted(instruction, &mut interpreter_memory)
            .unwrap());
    }

    assert_eq!(completed, instructions.len() as u64);
    assert_eq!(jit_registers.gpr, interpreter.regs.gpr);
    assert_eq!(jit_registers.pc, interpreter.regs.pc);
    assert_eq!(jit_memory.read_u32(0x200).unwrap(), 0x1234);
    assert_eq!(
        jit_memory.read_u32(0x200).unwrap(),
        interpreter_memory.read_u32(0x200).unwrap()
    );
}

#[test]
fn slow_memory_delay_slot_exits_before_branch_side_effects() {
    let start = 0x2400;
    let target = 0x2800;
    let instructions = [
        (0x0f << 26) | (29 << 16) | 0x1f00, // lui sp, 0x1f00 (slow address)
        (0x09 << 26) | (2 << 16) | 0x1234,  // addiu v0, zero, 0x1234
        (0x03 << 26) | ((target >> 2) & 0x03ff_ffff), // jal target
        (0x2b << 26) | (29 << 21) | (2 << 16), // sw v0, 0(sp) (delay slot)
    ];

    let block = lower_block(start, &instructions).unwrap();
    let mut registers = Registers::new(start);
    registers.write(31, 0xdead_beef);
    let mut memory = Memory::new();
    let completed = run(&block, &mut registers, &mut memory);

    assert_eq!(completed, 2);
    assert_eq!(registers.pc, start + 8);
    assert_eq!(registers.read(31), 0xdead_beef);
    assert_eq!(registers.read(29), 0x1f00_0000);
    assert_eq!(registers.read(2), 0x1234);
}

#[test]
fn extended_integer_and_unaligned_memory_match_interpreter() {
    let start = 0x1800;
    let instructions = [
        (8 << 21) | (9 << 16) | 0x1a,             // div t0, t1
        (10 << 11) | 0x12,                        // mflo t2
        (11 << 11) | 0x10,                        // mfhi t3
        (0x22 << 26) | (4 << 21) | (5 << 16) | 3, // lwl a1, 3(a0)
        (0x26 << 26) | (4 << 21) | (5 << 16),     // lwr a1, 0(a0)
        (0x2a << 26) | (6 << 21) | (7 << 16) | 3, // swl a3, 3(a2)
        (0x2e << 26) | (6 << 21) | (7 << 16),     // swr a3, 0(a2)
        (8 << 21) | (12 << 16) | 0x1a,            // div t0, t4
        (13 << 11) | 0x12,                        // mflo t5
        (14 << 11) | 0x10,                        // mfhi t6
    ];
    let block = lower_block(start, &instructions).unwrap();

    let mut jit_registers = Registers::new(start);
    jit_registers.write(4, 0x101);
    jit_registers.write(5, 0xdead_beef);
    jit_registers.write(6, 0x201);
    jit_registers.write(7, 0x4433_2211);
    jit_registers.write(8, (-7i32) as u32);
    jit_registers.write(9, 3);
    jit_registers.write(12, 0);
    let mut interpreter = Cpu::new(start);
    interpreter.regs = jit_registers;
    interpreter.start();

    let mut jit_memory = Memory::new();
    let mut interpreter_memory = Memory::new();
    for memory in [&mut jit_memory, &mut interpreter_memory] {
        memory.load_data(0x100, &[0x11, 0x22, 0x33, 0x44, 0x55]).unwrap();
        memory.load_data(0x200, &[0xaa; 8]).unwrap();
    }
    let completed = run(&block, &mut jit_registers, &mut jit_memory);
    for &instruction in &instructions {
        interpreter
            .step_fetched_unaccounted(instruction, &mut interpreter_memory)
            .unwrap();
    }

    assert_eq!(completed, instructions.len() as u64);
    assert_eq!(jit_registers.gpr, interpreter.regs.gpr);
    assert_eq!(jit_registers.pc, interpreter.regs.pc);
    assert_eq!(jit_registers.hi, interpreter.regs.hi);
    assert_eq!(jit_registers.lo, interpreter.regs.lo);
    assert_eq!(
        &jit_memory.system_ram()[0x200..0x208],
        &interpreter_memory.system_ram()[0x200..0x208]
    );
    assert_eq!(jit_registers.read(5), 0x5544_3322);
    assert_eq!(jit_registers.read(10), (-2i32) as u32);
    assert_eq!(jit_registers.read(11), (-1i32) as u32);
}

#[test]
fn special_memory_mapping_bails_out_before_side_effects() {
    let start = 0x2000;
    let instructions = [
        (0x2b << 26) | (9 << 21) | (8 << 16),
        (0x09 << 26) | (10 << 16) | 1,
    ];
    let block = lower_block(start, &instructions).unwrap();
    let mut registers = Registers::new(start);
    registers.write(8, 0x1234_5678);
    registers.write(9, 0x1308_0000);
    let mut memory = Memory::new();

    let completed = run(&block, &mut registers, &mut memory);

    assert_eq!(completed, 0);
    assert_eq!(registers.pc, start);
    assert_eq!(registers.read(10), 0);
    assert_eq!(memory.read_u32(0x1308_0000).unwrap(), 0);
}

#[test]
fn framebuffer_alias_uses_native_memory_path() {
    let start = 0x3000;
    let instructions = [(0x2b << 26) | (9 << 21) | (8 << 16)];
    let block = lower_block(start, &instructions).unwrap();
    let mut registers = Registers::new(start);
    registers.write(8, 0x1234_5678);
    registers.write(9, VM_LCD_FB_ADDRESS);
    let mut memory = Memory::new();

    let completed = run(&block, &mut registers, &mut memory);

    assert_eq!(completed, 1);
    assert_eq!(registers.pc, start + 4);
    assert_eq!(memory.read_u32(VM_LCD_FB_ADDRESS).unwrap(), 0x1234_5678);
}

#[test]
fn performance_counters_only_change_while_diagnostics_are_enabled() {
    let start = 0x4000;
    let instructions = [0u32; MIN_COMPILED_BLOCK_LEN];
    let mut engine = JitEngine::new(true);
    let mut host = Host::new();
    engine.set_enabled(false);
    let mut registers = Registers::new(start);
    let mut memory = Memory::new();

    assert!(host
        .execute(&mut engine, start, &instructions, &mut registers, &mut memory)
        .is_none());
    engine.record_interpreter_execution(4);
    assert_eq!(engine.diagnostics().execute_requests, 0);
    assert_eq!(engine.diagnostics().interpreter_executions, 0);

    engine.set_diagnostics_enabled(true);
    assert!(host
        .execute(&mut engine, start, &instructions, &mut registers, &mut memory)
        .is_none());
    engine.record_interpreter_execution(4);
    assert_eq!(engine.diagnostics().execute_requests, 1);
    assert_eq!(engine.diagnostics().cold_fallbacks, 1);
    assert_eq!(engine.diagnostics().interpreter_executions, 1);
    assert_eq!(engine.diagnostics().interpreter_instructions, 4);

    engine.set_diagnostics_enabled(false);
    engine.record_interpreter_execution(4);
    assert_eq!(engine.diagnostics().interpreter_executions, 1);
}

#[test]
fn blocks_that_cannot_be_compiled_say_why() {
    let syscall = 0x0000_000c;
    let add = (0x09 << 26) | (8 << 16) | 1;
    assert_eq!(analyze_candidate(&[syscall]).failure_reason, JitFailureReason::UnsupportedInstruction);
    assert_eq!(analyze_candidate(&[add]).failure_reason, JitFailureReason::BlockTooShort);
    let branch = (0x04 << 26) | 2;
    assert_eq!(
        analyze_candidate(&[branch, syscall]).failure_reason,
        JitFailureReason::UnsupportedDelaySlot
    );
    assert_eq!(JitFailureReason::UnsupportedDelaySlot.as_str(), "unsupported_delay_slot");
    assert!(lower_block(0x1000, &[syscall]).is_none());
}

#[test]
fn failed_blocks_are_ranked_by_their_fallbacks() {
    let mut engine = JitEngine::new(true);
    let mut host = Host::new();
    let mut registers = Registers::new(0);
    let mut memory = Memory::new();
    let syscall = [0x0000_000cu32; 4];
    engine.set_diagnostics_enabled(true);
    for (start, extra) in [(0x1000u32, 1u32), (0x2000, 5), (0x3000, 3)] {
        for _ in 0..HOT_BLOCK_THRESHOLD as u32 + extra {
            assert!(host
                .execute(&mut engine, start, &syscall, &mut registers, &mut memory)
                .is_none());
        }
    }
    let snapshot = engine.diagnostics();
    assert_eq!(snapshot.failed_blocks, 3);
    assert_eq!(snapshot.failed_hotspot_count, 3);
    assert_eq!(snapshot.failed_hotspots[0].start, 0x2000);
    assert_eq!(snapshot.failed_hotspots[1].start, 0x3000);
    assert_eq!(snapshot.failed_hotspots[2].start, 0x1000);
}

#[test]
fn a_pause_after_an_expensive_compilation_lasts_its_frames() {
    let mut engine = JitEngine::new(true);
    engine.compile_cooldown = 5;
    for _ in 0..5 {
        engine.begin_frame();
        assert_eq!(engine.compile_budget, 0);
    }
    engine.begin_frame();
    assert_eq!(engine.compile_budget, 1);
}

#[test]
fn compiled_code_is_run_until_it_is_forgotten() {
    let start = 0x1000;
    let mut engine = JitEngine::new(true);
    for _ in 1..HOT_BLOCK_THRESHOLD {
        assert_eq!(engine.request(start, &HOT_CODE, 4), JitAction::Interpret);
    }
    assert_eq!(engine.request(start, &HOT_CODE, 4), JitAction::Compile);
    let block = CompiledBlock {
        function: 0,
        instruction_count: 4,
    };
    assert_eq!(
        engine.finish_compile(start, Some(block), 2_000, 4),
        JitAction::Run(block, RunOrigin::Fresh)
    );
    assert_eq!(engine.compile_cooldown, 2);
    assert_eq!(
        engine.request(start, &HOT_CODE, 4),
        JitAction::Run(block, RunOrigin::FastCache)
    );
    assert_eq!(engine.request(start, &HOT_CODE, 3), JitAction::Interpret);
    assert_eq!(engine.diagnostics().execute_requests, 0);
    assert!(engine.clear());
    assert_eq!(engine.request(start, &HOT_CODE, 4), JitAction::Interpret);
}

#[test]
fn every_request_has_one_outcome() {
    let mut engine = JitEngine::new(true);
    engine.set_diagnostics_enabled(true);
    let mut host = Host::new();
    let mut registers = Registers::new(0);
    let mut memory = Memory::new();
    for round in 0..3 * u32::from(HOT_BLOCK_THRESHOLD) {
        engine.set_enabled(round % 50 != 0);
        if round % 100 == 0 {
            engine.begin_frame();
        }
        for start in [0x1000, 0x2000] {
            registers.pc = start;
            let _ = host.execute(&mut engine, start, &HOT_CODE, &mut registers, &mut memory);
        }
        let _ = engine.request(0x1000, &HOT_CODE, 0);
        let _ = engine.request(0x3000, &[0xfc00_0000], 1);
    }
    let seen = engine.diagnostics();
    assert_eq!(seen.execute_requests, 12 * u64::from(HOT_BLOCK_THRESHOLD));
    assert!(seen.native_executions > 0);
    assert!(seen.failed_block_fallbacks > 0);
    assert_eq!(
        seen.execute_requests,
        seen.native_executions
            + seen.cold_fallbacks
            + seen.instruction_limit_fallbacks
            + seen.zero_exit_fallbacks
            + seen.compilation_failures
    );
    assert_eq!(
        seen.cold_fallbacks,
        seen.unavailable_fallbacks
            + seen.cache_capacity_fallbacks
            + seen.below_hot_threshold_fallbacks
            + seen.compile_budget_fallbacks
            + seen.block_too_short_fallbacks
            + seen.unsupported_instruction_fallbacks
            + seen.failed_block_fallbacks
    );
    assert_eq!(seen.failed_hotspot_count, 1);
    assert_eq!(seen.failed_hotspots[0].start, 0x3000);
    for hotspot in &seen.failed_hotspots[1..] {
        assert_eq!((hotspot.start, hotspot.fallbacks), (0, 0));
        assert_eq!(hotspot.reason, JitFailureReason::Unknown);
    }
}
