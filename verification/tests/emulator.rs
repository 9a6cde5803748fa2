use dingooemu::app_image::{AppImage, ResourceKind, Symbol};
use dingooemu::audio::{
    AudioConfig, AudioWrite, Interpolation, VolumeRatio, OUTPUT_SAMPLE_RATE,
};
use dingooemu::code_cache::{instruction_block_cache_index, CachedInstructionBlock};
use dingooemu::emulator::{
    Emulator, Slice, SliceStep, Tick, CPU_CLOCK_HZ, CPU_CYCLES_PER_INSTRUCTION, CYCLES_PER_FRAME,
    OS_TICKS_PER_SECOND, STANDARD_APP_LOAD_BASE,
};
use dingooemu::error::SimulatorError;
use dingooemu::files::{HostRead, OpenFile};
use dingooemu::input::{BUTTON_A, BUTTON_B, BUTTON_RIGHT};
use dingooemu::jit::block::lower_block;
use dingooemu::jit::engine::{CompiledBlock, JitAction};
use dingooemu::jit::ir::LoweredBlock;
use dingooemu::memory::{SCREEN_HEIGHT, SCREEN_WIDTH};
use dingooemu::paths::resolve_host_file_path;
use dingooemu::sdk_hle::call::HandlerResult;
use dingooemu::sdk_hle::dispatch::dispatch;
use dingooemu::sdk_hle::files::{host_request, HostReply, HostRequest};
use dingooemu::search::{HostEntry, FILE_SEARCH_NAME_OFFSET};
use dingooemu::tasks::TaskWait;
use dingooemu::text::{read_guest_c_string, read_guest_w_string};
use dingooemu::unknown_hle::{UnknownHleCall, UnknownHlePolicy};
use std::collections::HashMap;

// A host with files in memory and blocks that run as they were lowered.
struct Host {
    files: HashMap<String, Vec<u8>>,
    resources: HashMap<String, (ResourceKind, Vec<u8>)>,
    entries: HashMap<String, Vec<HostEntry>>,
    blocks: Vec<LoweredBlock>,
}

impl Host {
    fn new() -> Host {
        Host {
            files: HashMap::new(),
            resources: HashMap::new(),
            entries: HashMap::new(),
            blocks: Vec::new(),
        }
    }

    fn read(&self, path: &str) -> HostRead {
        match self.files.get(path) {
            Some(data) => HostRead::Data(data.clone()),
            None => HostRead::NotFound,
        }
    }

    fn serve(&mut self, emu: &mut Emulator, name: &str) -> HostReply {
        match host_request(emu, name) {
            HostRequest::Nothing => HostReply::Nothing,
            HostRequest::Resource(resource) => {
                HostReply::Resource(self.resources.get(&resource).cloned())
            }
            HostRequest::Open(open) => HostReply::Opened {
                saved: match &open.save_path {
                    Some(path) => self.read(path),
                    None => HostRead::NotFound,
                },
                resource: self.resources.get(&open.name).cloned(),
                found: self.read(&open.host_path),
            },
            HostRequest::Save(handle) => {
                let (path, data) = emu.files.flush_request(handle).unwrap();
                self.files.insert(path.clone(), data.clone());
                HostReply::Saved(true)
            }
            HostRequest::List(directory) => HostReply::Entries(
                self.entries.get(&directory).map(|entries| {
                    entries
                        .iter()
                        .map(|entry| HostEntry {
                            name: entry.name.clone(),
                            is_directory: entry.is_directory,
                            is_file: entry.is_file,
                        })
                        .collect()
                }),
            ),
        }
    }

    fn call(&mut self, emu: &mut Emulator, pc: u32) -> Result<(), SimulatorError> {
        let name = emu.code.hooks.hook_at(pc).unwrap().clone();
        let reply = self.serve(emu, &name);
        match dispatch(emu, pc, &name, reply)? {
            HandlerResult::Rendering(frames) => {
                let volume = emu.audio.effective_volume();
                let samples = render(&frames, volume);
                emu.audio.queue(&samples);
            }
            HandlerResult::CodeDropped => self.blocks.clear(),
            _ => {}
        }
        Ok(())
    }

    fn run_block(
        &mut self,
        emu: &mut Emulator,
        start: u32,
        limit: usize,
    ) -> Result<u64, SimulatorError> {
        let mut action = emu.plan_block(start, limit)?;
        if action == JitAction::Compile {
            let slot = instruction_block_cache_index(start);
            let block = emu.code.blocks[slot];
            let code = &block.instructions[..block.len as usize];
            let compiled = lower_block(start, code).map(|lowered| {
                let compiled = CompiledBlock {
                    function: self.blocks.len(),
                    instruction_count: lowered.instruction_count,
                };
                self.blocks.push(lowered);
                compiled
            });
            action = emu.jit.finish_compile(start, compiled, 1_000, limit);
        }
        if let JitAction::Run(block, origin) = action {
            let mut file = emu.cpu.regs.to_file();
            let (pc, completed) =
                self.blocks[block.function].evaluate(&mut file, &mut emu.memory);
            emu.cpu.regs.set_file(&file);
            emu.cpu.regs.pc = pc;
            if let Some(completed) = emu.finish_native_block(start, origin, block, completed) {
                return Ok(completed);
            }
        }
        emu.run_cached_instruction_block(start, limit)
    }

    fn run_slice(&mut self, emu: &mut Emulator, tick: &mut Tick) -> Result<(), SimulatorError> {
        loop {
            match emu.next_in_slice(tick)? {
                SliceStep::End => return Ok(()),
                SliceStep::Hook(pc) => {
                    self.call(emu, pc)?;
                    if !emu.finish_hook(tick) {
                        return Ok(());
                    }
                }
                SliceStep::Block(start, limit) => {
                    let completed = self.run_block(emu, start, limit)?;
                    emu.finish_block(tick, completed);
                }
            }
        }
    }

    fn tick(&mut self, emu: &mut Emulator) -> Result<(), SimulatorError> {
        let mut tick = emu.begin_tick();
        while tick.remaining_cycles > 0 {
            if emu.begin_slice(&mut tick) {
                if let Err(error) = self.run_slice(emu, &mut tick) {
                    emu.abort_slice(&mut tick);
                    return Err(error);
                }
            }
            emu.end_slice(&mut tick);
        }
        emu.end_tick(&tick);
        Ok(())
    }
}

fn float_to_i16(sample: f32) -> i16 {
    (sample * 32767.0).clamp(i16::MIN as f32, i16::MAX as f32) as i16
}

fn render(frames: &[Interpolation], ratio: VolumeRatio) -> Vec<i16> {
    let volume =
        ratio.volume as f32 / ratio.full_scale as f32 * ratio.master_percent as f32 / 100.0;
    let mut samples = Vec::new();
    for frame in frames {
        let fraction = frame.offset as f32 / OUTPUT_SAMPLE_RATE as f32;
        for (previous, current) in [
            (frame.previous.left, frame.current.left),
            (frame.previous.right, frame.current.right),
        ] {
            let previous = previous as f32 / 32768.0;
            let current = current as f32 / 32768.0;
            samples.push(float_to_i16((previous + (current - previous) * fraction) * volume));
        }
    }
    samples
}

fn minimal_app() -> AppImage {
    AppImage {
        data: vec![0u8; 132],
        load_base: 0x8000_0000,
        entry_point: 0x8000_0000,
        executable: vec![0u8; 4],
        imports: Vec::new(),
        exports: Vec::new(),
    }
}

fn write_audio(emu: &mut Emulator, data: &[u8]) -> bool {
    match emu.audio.write(data) {
        AudioWrite::Rejected => false,
        AudioWrite::Silent => true,
        AudioWrite::Render(frames) => {
            let samples = render(&frames, emu.audio.effective_volume());
            emu.audio.queue(&samples);
            true
        }
    }
}

fn idle() -> Emulator {
    Emulator::idle(true)
}

fn try_invoke_with(
    host: &mut Host,
    emu: &mut Emulator,
    address: u32,
    name: &str,
) -> Result<u64, SimulatorError> {
    emu.code.hooks.insert(address, name.to_string());
    emu.cpu.regs.pc = address;
    emu.cpu.start();
    let cycle_count = emu.cycle_count;
    if emu
        .scheduler
        .active_context_waiting(cycle_count, emu.audio.can_write())
    {
        return Ok(0);
    }
    let mut tick = Tick {
        start_cycle: cycle_count.wrapping_sub(CYCLES_PER_FRAME - CPU_CYCLES_PER_INSTRUCTION),
        remaining_cycles: CPU_CYCLES_PER_INSTRUCTION,
        idle_contexts: 0,
        slice: Some(Slice {
            executed: 0,
            cycles: CPU_CYCLES_PER_INSTRUCTION,
            context_count: 1,
            parked: None,
        }),
    };
    host.run_slice(emu, &mut tick)?;
    Ok(tick.slice.unwrap().executed)
}

fn try_invoke(emu: &mut Emulator, address: u32, name: &str) -> Result<u64, SimulatorError> {
    try_invoke_with(&mut Host::new(), emu, address, name)
}

fn invoke(emu: &mut Emulator, address: u32, name: &str) {
    assert_eq!(try_invoke(emu, address, name).unwrap(), CPU_CYCLES_PER_INSTRUCTION);
}

fn invoke_with(host: &mut Host, emu: &mut Emulator, address: u32, name: &str) {
    assert_eq!(
        try_invoke_with(host, emu, address, name).unwrap(),
        CPU_CYCLES_PER_INSTRUCTION
    );
}

#[test]
fn test_emulator_creation() {
    let emu = idle();
    assert_eq!(emu.frame_count(), 0);
    assert!(!emu.is_running());
}

#[test]
fn unknown_hle_calls_are_aggregated_by_name() {
    let mut emu = idle();
    emu.cpu.regs.write(31, 0x8000_1008);
    for (register, value) in (4..=7).zip([1, 2, 3, 4]) {
        emu.cpu.regs.write(register, value);
    }

    invoke(&mut emu, 0x1000, "missing_sdk_call");
    emu.cpu.regs.write(31, 0x8000_2008);
    emu.cpu.regs.write(4, 99);
    invoke(&mut emu, 0x1004, "missing_sdk_call");

    let calls: Vec<_> = emu.unknown_hle_calls().clone();
    assert_eq!(
        calls,
        vec![UnknownHleCall {
            name: "missing_sdk_call".to_string(),
            count: 2,
            import_address: 0x1000,
            first_pc: 0x8000_1000,
            first_arguments: [1, 2, 3, 4],
        }]
    );
    assert_eq!(emu.cpu.regs.read(2), 0);
    assert_eq!(emu.cpu.regs.pc, 0x8000_2008);
}

#[test]
fn strict_unknown_hle_policy_stops_and_keeps_diagnostics() {
    let mut emu = idle();
    emu.set_unknown_hle_policy(UnknownHlePolicy::Stop);
    emu.cpu.regs.write(31, 0x8000_3008);
    emu.cpu.regs.write(4, 0x1234);

    let error = try_invoke(&mut emu, 0x2000, "strict_missing").unwrap_err();
    assert!(matches!(
        error,
        SimulatorError::UnknownHle {
            ref name,
            pc: 0x8000_3000,
            import_address: 0x2000,
            arguments: [0x1234, 0, 0, 0],
        } if name == "strict_missing"
    ));
    assert_eq!(emu.unknown_hle_calls().len(), 1);
}

#[test]
fn strict_unknown_hle_allowlist_is_exact_and_survives_reset() {
    let mut emu = Emulator::from_app(minimal_app(), true).unwrap();
    emu.set_unknown_hle_policy(UnknownHlePolicy::Stop);
    emu.set_unknown_hle_allowlist(vec!["allowed_missing".to_string()]);
    emu.cpu.regs.write(31, 0x8000_4008);

    invoke(&mut emu, 0x3000, "allowed_missing");
    assert_eq!(emu.unknown_hle_calls().len(), 1);

    emu.reset().unwrap();
    assert_eq!(emu.unknown_hle.policy, UnknownHlePolicy::Stop);
    assert!(emu.unknown_hle.allowlist.contains(&"allowed_missing".to_string()));
    assert_eq!(emu.unknown_hle_calls().len(), 0);

    emu.cpu.regs.write(31, 0x8000_5008);
    invoke(&mut emu, 0x3004, "allowed_missing");
    assert!(try_invoke(&mut emu, 0x3008, "Allowed_Missing").is_err());
}

#[test]
fn test_legacy_load_base_requests_lcd_initialization() {
    let legacy = Emulator::from_app(minimal_app(), true).unwrap();
    assert_eq!(legacy.cpu.regs.read(5), 1);

    let mut standard_app = minimal_app();
    standard_app.load_base = STANDARD_APP_LOAD_BASE;
    let standard = Emulator::from_app(standard_app, true).unwrap();
    assert_eq!(standard.cpu.regs.read(5), 0);
}

#[test]
fn test_reset_rebuilds_loaded_runtime_state() {
    let mut emu = Emulator::from_app(minimal_app(), true).unwrap();
    emu.start();
    emu.memory.write_u32(0x1000, 0x1234_5678).unwrap();
    emu.set_buttons(BUTTON_A);
    emu.frame_count = 42;
    emu.cycle_count = 123;

    emu.reset().unwrap();

    assert!(emu.is_running());
    assert_eq!(emu.cpu.regs.pc, 0x8000_0000);
    assert_eq!(emu.memory.read_u32(0x1000).unwrap(), 0);
    assert_eq!(emu.input.buttons(), 0);
    assert_eq!(emu.frame_count, 0);
    assert_eq!(emu.cycle_count, 0);
}

#[test]
fn reset_keeps_the_memory_buffers_and_needs_an_application() {
    let mut emu = Emulator::from_app(minimal_app(), true).unwrap();
    let ram = emu.memory.ram.as_ptr() as usize;
    emu.reset().unwrap();
    assert_eq!(emu.memory.ram.as_ptr() as usize, ram);

    assert_eq!(idle().reset(), Err(SimulatorError::NoApplication));
}

#[test]
fn applications_that_do_not_fit_are_refused() {
    let mut app = minimal_app();
    app.load_base = 0x81ff_fffe;
    let result = Emulator::from_app(app, true);
    assert_eq!(
        result.err(),
        Some(SimulatorError::UnmappedAddress { address: 0x8200_0000 })
    );
}

#[test]
fn imports_are_hooked_at_both_of_their_addresses() {
    let mut app = minimal_app();
    app.imports.push(Symbol { name: "malloc".to_string(), address: 0x8000_1000 });
    app.exports.push(Symbol { name: "AppMain".to_string(), address: 0x8000_2000 });
    let emu = Emulator::from_app(app, true).unwrap();

    assert_eq!(emu.code.hooks.hook_at(0x8000_1000), Some(&"malloc".to_string()));
    assert_eq!(emu.code.hooks.hook_at(0x0000_1000), Some(&"malloc".to_string()));
    assert_eq!(emu.code.hooks.hook_at(0x8000_1004), None);
    assert_eq!(emu.code.app_main_entry, Some(0x8000_2000));
    assert_eq!(emu.code.app_main_init_check_address, Some(0x8000_2034));
    assert_eq!(emu.cpu.regs.read(31), 0x8000_2000);
}

#[test]
fn test_guest_task_executes_with_shared_memory() {
    let mut emu = idle();
    let entry = 0x1000;
    let addiu_t0 = (0x09 << 26) | (8 << 16) | 0x1234;
    let sw_t0 = (0x2B << 26) | (8 << 16) | 0x2000;
    let jr_ra = (31 << 21) | 0x08;
    emu.memory.write_u32(entry, addiu_t0).unwrap();
    emu.memory.write_u32(entry + 4, sw_t0).unwrap();
    emu.memory.write_u32(entry + 8, jr_ra).unwrap();
    emu.memory.write_u32(entry + 12, 0).unwrap();

    assert!(emu.scheduler.create_guest_task(entry, 0, 0x3000, 16));
    Host::new().tick(&mut emu).unwrap();

    assert_eq!(emu.memory.read_u32(0x2000).unwrap(), 0x1234);
    assert!(emu.scheduler.tasks.is_empty());
}

#[test]
fn test_tick_uses_interpreter_cycle_cost() {
    let mut emu = idle();
    emu.start();

    Host::new().tick(&mut emu).unwrap();

    assert_eq!(
        emu.cpu.instruction_count,
        CYCLES_PER_FRAME / CPU_CYCLES_PER_INSTRUCTION
    );
    assert_eq!(emu.cycle_count, CYCLES_PER_FRAME);
}

#[test]
fn native_and_interpreted_frames_agree() {
    let program = [
        (0x09 << 26) | (8 << 21) | (8 << 16) | 3, // addiu t0, t0, 3
        (8 << 21) | (9 << 16) | (9 << 11) | 0x26, // xor t1, t0, t1
        (0x2b << 26) | (9 << 16) | 0x0400,        // sw t1, 0x400(zero)
        (0x09 << 26) | (10 << 21) | (10 << 16) | 1, // addiu t2, t2, 1
        (0x02 << 26) | (0x1000 >> 2),             // j 0x1000
        0,
    ];
    let run = |enabled: bool| {
        let mut emu = idle();
        emu.set_jit_enabled(enabled);
        emu.set_jit_diagnostics_enabled(true);
        for (index, &word) in program.iter().enumerate() {
            emu.memory.write_u32(0x1000 + 4 * index as u32, word).unwrap();
        }
        emu.cpu.regs.pc = 0x1000;
        emu.start();
        let mut host = Host::new();
        for _ in 0..3 {
            host.tick(&mut emu).unwrap();
        }
        emu
    };
    let native = run(true);
    let interpreted = run(false);
    assert!(native.jit_diagnostics().native_executions > 0);
    assert_eq!(interpreted.jit_diagnostics().native_executions, 0);
    assert_eq!(native.cpu.regs, interpreted.cpu.regs);
    assert_eq!(native.cpu.instruction_count, interpreted.cpu.instruction_count);
    assert_eq!(native.cycle_count, interpreted.cycle_count);
    assert_eq!(native.memory.read_u32(0x400), interpreted.memory.read_u32(0x400));
}

#[test]
fn test_tick_stops_after_framebuffer_submission() {
    let mut emu = idle();
    let hook_address = 0x1000;
    emu.code.hooks.insert(hook_address, "lcd_set_frame".to_string());
    emu.video.framebuffer.fill(0xff);
    emu.cpu.regs.pc = hook_address;
    emu.cpu.regs.write(31, hook_address + 4);
    emu.start();

    Host::new().tick(&mut emu).unwrap();

    assert_eq!(emu.cpu.regs.pc, hook_address + 4);
    assert_eq!(emu.cpu.instruction_count, 0);
    assert_eq!(emu.cycle_count, CYCLES_PER_FRAME);
    assert!(emu.video.framebuffer.iter().all(|&byte| byte == 0));
}

#[test]
fn test_instruction_blocks_stop_before_sdk_hooks() {
    let mut emu = idle();
    emu.code.hooks.insert(0x1020, "lcd_set_frame".to_string());

    emu.code.ensure_instruction_block(&emu.memory, 0x1000).unwrap();

    let cache_index = instruction_block_cache_index(0x1000);
    assert_eq!(emu.code.blocks[cache_index].len, 8);
}

#[test]
fn test_instruction_cache_is_cleared_by_guest_invalidation() {
    let mut emu = idle();
    let cache_index = instruction_block_cache_index(0x1000);
    emu.code.blocks[cache_index] = CachedInstructionBlock {
        start: 0x1000,
        len: 1,
        instructions: [0; 64],
    };

    invoke(&mut emu, 0x2000, "__icache_invalidate_all");

    assert!(emu.code.blocks.iter().all(|block| block.len == 0));
}

#[test]
fn test_hle_modules_execute_through_runtime_hooks() {
    let mut emu = idle();
    let return_address = 0x9000;
    emu.cpu.regs.write(31, return_address);

    emu.memory.load_data(0x100, b"hello\0").unwrap();
    emu.cpu.regs.write(4, 0x100);
    invoke(&mut emu, 0x1000, "strlen");
    assert_eq!(emu.cpu.regs.read(2), 5);
    assert_eq!(emu.cpu.regs.pc, return_address);

    invoke(&mut emu, 0x1004, "LCD_GetXSize");
    assert_eq!(emu.cpu.regs.read(2), SCREEN_WIDTH);

    emu.set_buttons(BUTTON_A);
    invoke(&mut emu, 0x1008, "kbd_get_key");
    assert_eq!(emu.cpu.regs.read(2), BUTTON_A);

    invoke(&mut emu, 0x100c, "pcm_ioctl");
    assert_eq!(emu.cpu.regs.read(2), 0);

    emu.cpu.regs.write(4, 2);
    invoke(&mut emu, 0x1010, "OSSemCreate");
    assert_eq!(emu.scheduler.semaphores.get(&emu.cpu.regs.read(2)), Some(&2));

    invoke(&mut emu, 0x1014, "get_dl_handle");
    assert_eq!(emu.cpu.regs.read(2), 0);
}

#[test]
fn test_semaphore_wakes_waiting_main_task() {
    let mut emu = idle();
    let semaphore = emu.scheduler.create_semaphore(0);

    assert!(emu.scheduler.pend_semaphore(semaphore));
    assert_eq!(emu.scheduler.main_wait, Some(TaskWait::Semaphore(semaphore)));
    assert!(emu.scheduler.post_semaphore(semaphore));
    assert_eq!(emu.scheduler.main_wait, None);
}

#[test]
fn test_guest_timers_advance_with_emulated_cycles() {
    let mut emu = idle();
    emu.cycle_count = CPU_CLOCK_HZ / OS_TICKS_PER_SECOND;

    invoke(&mut emu, 0, "OSTimeGet");
    assert_eq!(emu.cpu.regs.read(2), 1);

    invoke(&mut emu, 0, "GetTickCount");
    assert_eq!(emu.cpu.regs.read(2), 10_000);
}

#[test]
fn test_sprintf_builds_guest_path() {
    let mut emu = idle();
    let destination = 0x8001_0000;
    let format = 0x8001_0100;
    let directory = 0x8001_0200;
    emu.memory.load_data(format, b"%ssplash.tga\0").unwrap();
    emu.memory.load_data(directory, b"games/astro/\0").unwrap();
    emu.cpu.regs.write(4, destination);
    emu.cpu.regs.write(5, format);
    emu.cpu.regs.write(6, directory);

    invoke(&mut emu, 0, "sprintf");

    assert_eq!(
        read_guest_c_string(&emu.memory, destination),
        "games/astro/splash.tga"
    );
    assert_eq!(emu.cpu.regs.read(2), 22);
}

#[test]
fn test_sprintf_reads_stack_varargs() {
    let mut emu = idle();
    let destination = 0x8001_0000;
    let format = 0x8001_0100;
    let stack = 0x8001_1000;
    emu.memory.load_data(format, b"Ver: %lu.%lu.%04lu\0").unwrap();
    emu.cpu.regs.write(4, destination);
    emu.cpu.regs.write(5, format);
    emu.cpu.regs.write(6, 1);
    emu.cpu.regs.write(7, 2);
    emu.cpu.regs.write(29, stack);
    emu.memory.write_u32(stack + 16, 3).unwrap();

    invoke(&mut emu, 0, "sprintf");

    assert_eq!(read_guest_c_string(&emu.memory, destination), "Ver: 1.2.0003");
    assert_eq!(emu.cpu.regs.read(2), 13);
}

#[test]
fn test_app_main_receives_file_name() {
    let mut emu = idle();
    emu.app_path = "games/astro/Astro-Lander.app".to_string();

    emu.install_app_main_args().unwrap();

    assert_eq!(
        read_guest_w_string(&emu.memory, emu.cpu.regs.read(4)),
        "Astro-Lander.app"
    );
}

#[test]
fn test_host_file_path_resolves_from_app_directory() {
    assert_eq!(
        resolve_host_file_path("games/astro/Astro-Lander.app", r"assets\splash.tga"),
        "games/astro/assets/splash.tga"
    );
}

#[test]
fn test_to_locale_ansi_preserves_input_and_reuses_output_buffer() {
    let mut emu = idle();
    let ptr = 0x100;
    for (index, word) in "Ali中.app\0".encode_utf16().enumerate() {
        emu.memory.write_u16(ptr + (index as u32 * 2), word).unwrap();
    }
    emu.cpu.regs.write(4, ptr);
    emu.cpu.regs.write(31, 0x1234);

    invoke(&mut emu, 0, "__to_locale_ansi");

    let output = emu.cpu.regs.read(2);
    assert_ne!(output, ptr);
    assert_eq!(emu.cpu.regs.pc, 0x1234);
    assert_eq!(
        (0..9)
            .map(|offset| emu.memory.read_u8(output + offset).unwrap())
            .collect::<Vec<_>>(),
        b"Ali?.app\0"
    );
    assert_eq!(read_guest_w_string(&emu.memory, ptr), "Ali中.app");

    emu.cpu.regs.write(4, ptr);
    invoke(&mut emu, 0, "__to_locale_ansi");

    assert_eq!(emu.cpu.regs.read(2), output);
    assert_eq!(read_guest_c_string(&emu.memory, output), "Ali?.app");
}

#[test]
fn test_get_system_model_writes_a320_as_utf16() {
    let mut emu = idle();
    let ptr = 0x100;
    emu.cpu.regs.write(4, ptr);
    emu.cpu.regs.write(31, 0x1234);

    invoke(&mut emu, 0, "cmGetSysModel");

    assert_eq!(emu.cpu.regs.read(2), 0);
    assert_eq!(emu.cpu.regs.pc, 0x1234);
    assert_eq!(read_guest_w_string(&emu.memory, ptr), "A320");
}

#[test]
fn test_u8_conversion_aliases_read_little_endian_values() {
    let mut emu = idle();
    let ptr = 0x100;
    emu.memory.load_data(ptr, &[0x18, 0xC2, 0x01, 0x00]).unwrap();
    emu.cpu.regs.write(4, ptr);

    for name in ["U8TOU16", "U8TOX16"] {
        invoke(&mut emu, 0, name);
        assert_eq!(emu.cpu.regs.read(2), 0xC218);
    }

    for name in ["U8TOU32", "U8TOX32"] {
        invoke(&mut emu, 0, name);
        assert_eq!(emu.cpu.regs.read(2), 0x0001_C218);
    }
}

#[test]
fn test_lcd_size_matches_a320_display() {
    let mut emu = idle();

    invoke(&mut emu, 0, "LCD_GetXSize");
    assert_eq!(emu.cpu.regs.read(2), SCREEN_WIDTH);

    invoke(&mut emu, 0, "LCD_GetYSize");
    assert_eq!(emu.cpu.regs.read(2), SCREEN_HEIGHT);
}

#[test]
fn test_waveout_hle_opens_and_queues_guest_pcm() {
    let mut emu = idle();
    let args_ptr = 0x1000;
    emu.memory.write_u32(args_ptr, 16_000).unwrap();
    emu.memory.write_u16(args_ptr + 4, 16).unwrap();
    emu.memory.write_u8(args_ptr + 6, 1).unwrap();
    emu.memory.write_u8(args_ptr + 7, 100).unwrap();
    emu.cpu.regs.write(4, args_ptr);
    invoke(&mut emu, 0, "waveout_open");

    assert_eq!(emu.cpu.regs.read(2), 1);
    assert_eq!(emu.audio.config(), AudioConfig::new(16_000, 16, 1, 100));

    let buffer_ptr = 0x2000;
    for index in 0..1_600u32 {
        let sample = if index % 2 == 0 { 10_000i16 } else { -10_000i16 };
        emu.memory.write_u16(buffer_ptr + index * 2, sample as u16).unwrap();
    }
    emu.cpu.regs.write(5, buffer_ptr);
    emu.cpu.regs.write(6, 3_200);
    invoke(&mut emu, 0, "waveout_write");

    assert_eq!(emu.cpu.regs.read(2), 1);
    assert!(emu.take_audio_samples().iter().any(|&sample| sample != 0));
}

#[test]
fn test_waveout_write_retries_after_queue_space_is_available() {
    let mut emu = idle();
    let config = AudioConfig::new(16_000, 16, 1, 100).unwrap();
    assert!(emu.audio.open(config));
    assert!(write_audio(&mut emu, &vec![0; 32_000]));
    assert!(!emu.audio.can_write());

    let hook_address = 0x4000;
    let return_address = 0x1234;
    let buffer_ptr = 0x2000;
    emu.memory.load_data(buffer_ptr, &1_000i16.to_le_bytes()).unwrap();
    emu.cpu.regs.pc = hook_address;
    emu.cpu.regs.write(2, 0xdead_beef);
    emu.cpu.regs.write(5, buffer_ptr);
    emu.cpu.regs.write(6, 2);
    emu.cpu.regs.write(31, return_address);

    invoke(&mut emu, hook_address, "waveout_write");

    assert_eq!(emu.scheduler.main_wait, Some(TaskWait::AudioWrite));
    assert_eq!(emu.cpu.regs.pc, hook_address);
    assert_eq!(emu.cpu.regs.read(2), 0xdead_beef);

    for _ in 0..60 {
        if emu.audio.can_write() {
            break;
        }
        emu.take_audio_samples();
    }
    assert!(emu.audio.can_write());
    let cycle_count = emu.cycle_count;
    assert!(!emu.scheduler.active_context_waiting(cycle_count, emu.audio.can_write()));

    invoke(&mut emu, hook_address, "waveout_write");

    assert_eq!(emu.scheduler.main_wait, None);
    assert_eq!(emu.cpu.regs.pc, return_address);
    assert_eq!(emu.cpu.regs.read(2), 1);
}

#[test]
fn test_writable_file_persists_and_reopens() {
    let mut emu = idle();
    let mut host = Host::new();
    emu.set_save_directory("/saves".to_string());
    emu.memory.load_data(0x100, b"test.log\0").unwrap();
    emu.memory.load_data(0x120, b"w\0").unwrap();
    emu.memory.load_data(0x140, b"abcdef").unwrap();
    emu.cpu.regs.write(4, 0x100);
    emu.cpu.regs.write(5, 0x120);

    invoke_with(&mut host, &mut emu, 0, "fsys_fopen");
    let handle = emu.cpu.regs.read(2);
    assert_ne!(handle, 0);

    emu.cpu.regs.write(4, 0x140);
    emu.cpu.regs.write(5, 2);
    emu.cpu.regs.write(6, 3);
    emu.cpu.regs.write(7, handle);
    invoke_with(&mut host, &mut emu, 0, "fsys_fwrite");

    assert_eq!(emu.cpu.regs.read(2), 3);
    assert_eq!(emu.files.files[&handle].data, b"abcdef");

    emu.cpu.regs.write(4, handle);
    invoke_with(&mut host, &mut emu, 0, "fsys_fclose");
    assert_eq!(emu.cpu.regs.read(2), 0);
    assert_eq!(host.files["/saves/test.log"], b"abcdef");

    emu.memory.load_data(0x120, b"r\0").unwrap();
    emu.cpu.regs.write(4, 0x100);
    emu.cpu.regs.write(5, 0x120);
    invoke_with(&mut host, &mut emu, 0, "fsys_fopen");
    let reopened = emu.cpu.regs.read(2);
    assert_eq!(emu.files.files[&reopened].data, b"abcdef");
}

#[test]
fn test_read_only_file_can_be_read_but_not_written() {
    let mut emu = idle();
    let handle = 7;
    emu.files.put(
        handle,
        OpenFile {
            data: b"resource".to_vec(),
            position: 0,
            data_ptr: 0,
            save_path: None,
            writable: false,
            dirty: false,
        },
    );

    assert_eq!(emu.files.read_file(&mut emu.memory, 0x100, 1, 8, handle).unwrap(), 8);
    let read_back = (0..8)
        .map(|offset| emu.memory.read_u8(0x100 + offset).unwrap())
        .collect::<Vec<_>>();
    assert_eq!(read_back, b"resource");

    assert_eq!(emu.files.seek_file(handle, 0, 0), 0);
    emu.memory.load_data(0x200, b"modified").unwrap();
    assert_eq!(emu.files.write_file(&emu.memory, 0x200, 1, 8, handle).unwrap(), 0);
    assert_eq!(emu.files.files[&handle].data, b"resource");
    assert!(!emu.files.files[&handle].dirty);
}

#[test]
fn test_guest_save_path_cannot_escape_save_directory() {
    let mut emu = idle();
    emu.set_save_directory("/tmp/dingooemu-save-root".to_string());

    assert!(emu.save_file_path("save/profile.dat").is_some());
    assert!(emu.save_file_path("A:\\save\\profile.dat").is_some());
    assert!(emu.save_file_path("../outside.dat").is_none());
    assert!(emu.save_file_path("save/../../outside.dat").is_none());

    assert_eq!(
        emu.save_file_path("A:\\save\\profile.dat"),
        Some("/tmp/dingooemu-save-root/A/save/profile.dat".to_string())
    );
}

fn entry(name: &str, is_directory: bool) -> HostEntry {
    HostEntry { name: name.to_string(), is_directory, is_file: !is_directory }
}

#[test]
fn test_file_search_enumerates_matching_entries_and_terminates() {
    let mut host = Host::new();
    host.entries.insert(
        String::new(),
        vec![
            entry("Fountain.mod", false),
            entry("Music", true),
            entry("Dn-Beyond.xm", false),
        ],
    );
    let mut emu = idle();
    emu.app_path = "/music/GooPlayer.app".to_string();
    emu.memory.load_data(0x100, b"*\0").unwrap();
    emu.cpu.regs.write(4, 0x100);
    emu.cpu.regs.write(5, 0x10);
    emu.cpu.regs.write(6, 0x200);
    invoke_with(&mut host, &mut emu, 0x1000, "fsys_findfirst");
    assert_eq!(emu.cpu.regs.read(2), 0);
    assert_eq!(read_guest_c_string(&emu.memory, 0x200 + FILE_SEARCH_NAME_OFFSET), "Music");

    emu.cpu.regs.write(4, 0x200);
    invoke_with(&mut host, &mut emu, 0x1004, "fsys_findnext");
    assert_eq!(emu.cpu.regs.read(2), u32::MAX);

    emu.cpu.regs.write(4, 0x100);
    emu.cpu.regs.write(5, 0);
    emu.cpu.regs.write(6, 0x300);
    invoke_with(&mut host, &mut emu, 0x1008, "fsys_findfirst");
    assert_eq!(emu.cpu.regs.read(2), 0);
    assert_eq!(
        read_guest_c_string(&emu.memory, 0x300 + FILE_SEARCH_NAME_OFFSET),
        "Dn-Beyond.xm"
    );

    emu.cpu.regs.write(4, 0x300);
    invoke_with(&mut host, &mut emu, 0x100c, "fsys_findnext");
    assert_eq!(emu.cpu.regs.read(2), 0);
    assert_eq!(
        read_guest_c_string(&emu.memory, 0x300 + FILE_SEARCH_NAME_OFFSET),
        "Fountain.mod"
    );

    emu.cpu.regs.write(4, 0x200);
    invoke_with(&mut host, &mut emu, 0x1010, "fsys_findclose");
    assert_eq!(emu.cpu.regs.read(2), 0);
    assert!(!emu.searches.searches.contains_key(&0x200));
}

#[test]
fn test_file_search_filters_wildcards_and_rejects_parent_paths() {
    let mut host = Host::new();
    host.entries
        .insert(String::new(), vec![entry("Track.XM", false), entry("Track.mod", false)]);
    let mut emu = idle();
    emu.app_path = "/music/GooPlayer.app".to_string();
    emu.memory.load_data(0x100, b"*.xm\0").unwrap();
    emu.cpu.regs.write(4, 0x100);
    emu.cpu.regs.write(5, 0);
    emu.cpu.regs.write(6, 0x200);
    invoke_with(&mut host, &mut emu, 0x1000, "fsys_findfirst");
    assert_eq!(emu.cpu.regs.read(2), 0);
    assert_eq!(read_guest_c_string(&emu.memory, 0x200 + FILE_SEARCH_NAME_OFFSET), "Track.XM");

    emu.cpu.regs.write(4, 0x200);
    invoke_with(&mut host, &mut emu, 0x1004, "fsys_findnext");
    assert_eq!(emu.cpu.regs.read(2), u32::MAX);

    emu.memory.load_data(0x100, b"../*\0").unwrap();
    emu.cpu.regs.write(4, 0x100);
    emu.cpu.regs.write(5, 0x10);
    emu.cpu.regs.write(6, 0x300);
    assert!(matches!(host_request(&emu, "fsys_findfirst"), HostRequest::Nothing));
    invoke_with(&mut host, &mut emu, 0x1008, "fsys_findfirst");
    assert_eq!(emu.cpu.regs.read(2), u32::MAX);
}

#[test]
fn resources_open_with_the_view_that_their_kind_has() {
    let mut host = Host::new();
    let mut data = vec![0u8; 24];
    data[0] = 1;
    data[8..12].copy_from_slice(&0x260a_1300u32.to_le_bytes());
    host.resources.insert("brick.bin".to_string(), (ResourceKind::Packed, data));
    let mut emu = idle();
    emu.memory.load_data(0x2_0000, b"brick.bin\0").unwrap();
    emu.cpu.regs.write(4, 1);
    emu.cpu.regs.write(5, 0x2_0000);
    emu.cpu.regs.write(6, 7);
    invoke_with(&mut host, &mut emu, 0x1000, "dl_res_open");
    let handle = emu.cpu.regs.read(2);
    assert_eq!(emu.files.files[&handle].data.len(), 40);

    emu.cpu.regs.write(4, handle);
    invoke_with(&mut host, &mut emu, 0x1004, "dl_res_get_size");
    assert_eq!(emu.cpu.regs.read(2), 40);

    emu.cpu.regs.write(5, 0x3_0000);
    emu.cpu.regs.write(6, 4);
    emu.cpu.regs.write(7, 1);
    invoke_with(&mut host, &mut emu, 0x1008, "dl_res_get_data");
    assert_eq!(emu.cpu.regs.read(2), 4);
    assert_eq!(emu.memory.read_u32(0x3_0000), Ok(1));

    invoke_with(&mut host, &mut emu, 0x100c, "dl_res_close");
    assert!(emu.files.files.is_empty());
}

#[test]
fn files_end_and_seek_as_the_guest_asks() {
    let mut host = Host::new();
    host.files.insert("/app/data.txt".to_string(), b"0123456789".to_vec());
    let mut emu = idle();
    emu.app_path = "/app/Game.app".to_string();
    emu.memory.load_data(0x100, b"data.txt\0").unwrap();
    emu.memory.load_data(0x120, b"rb\0").unwrap();
    emu.cpu.regs.write(4, 0x100);
    emu.cpu.regs.write(5, 0x120);
    invoke_with(&mut host, &mut emu, 0x1000, "fopen");
    let handle = emu.cpu.regs.read(2);
    assert_ne!(handle, 0);

    emu.cpu.regs.write(4, handle);
    emu.cpu.regs.write(5, (-3i32) as u32);
    emu.cpu.regs.write(6, 2);
    invoke_with(&mut host, &mut emu, 0x1004, "fseek");
    assert_eq!(emu.cpu.regs.read(2), 0);
    invoke_with(&mut host, &mut emu, 0x1008, "ftell");
    assert_eq!(emu.cpu.regs.read(2), 7);
    invoke_with(&mut host, &mut emu, 0x100c, "feof");
    assert_eq!(emu.cpu.regs.read(2), 0);

    emu.cpu.regs.write(4, 0x200);
    emu.cpu.regs.write(5, 1);
    emu.cpu.regs.write(6, 100);
    emu.cpu.regs.write(7, handle);
    invoke_with(&mut host, &mut emu, 0x1010, "fread");
    assert_eq!(emu.cpu.regs.read(2), 3);
    assert_eq!(emu.memory.read_u8(0x200), Ok(b'7'));

    emu.cpu.regs.write(4, handle);
    invoke_with(&mut host, &mut emu, 0x1014, "feof");
    assert_eq!(emu.cpu.regs.read(2), 1);
    emu.cpu.regs.write(5, (-11i32) as u32);
    emu.cpu.regs.write(6, 2);
    invoke_with(&mut host, &mut emu, 0x1018, "fseek");
    assert_eq!(emu.cpu.regs.read(2), u32::MAX);
    emu.cpu.regs.write(4, 99);
    invoke_with(&mut host, &mut emu, 0x101c, "ftell");
    assert_eq!(emu.cpu.regs.read(2), u32::MAX);
}

#[test]
fn a_firmware_name_stops_the_application() {
    let mut emu = idle();
    emu.memory.write_u16(0x100, 0xDE88).unwrap();
    emu.memory.write_u16(0x102, 0x80AA).unwrap();
    emu.memory.write_u16(0x120, b'r' as u16).unwrap();
    emu.memory.write_u16(0x122, b'b' as u16).unwrap();
    emu.cpu.regs.write(4, 0x100);
    emu.cpu.regs.write(5, 0x120);
    assert!(matches!(host_request(&emu, "fsys_fopenW"), HostRequest::Nothing));
    invoke(&mut emu, 0x1000, "fsys_fopenW");
    assert!(!emu.is_running());
    assert_eq!(emu.cpu.regs.read(2), 0);
}

#[test]
fn unmapped_arguments_fail_where_they_are_reached() {
    let mut emu = idle();
    emu.cpu.regs.write(4, 0x100);
    emu.cpu.regs.write(5, 0x4000_0000);
    emu.cpu.regs.write(6, 4);
    assert_eq!(
        try_invoke(&mut emu, 0x1000, "memcpy"),
        Err(SimulatorError::UnmappedAddress { address: 0x4000_0000 })
    );
    emu.cpu.regs.write(4, 0x4000_0000);
    assert_eq!(
        try_invoke(&mut emu, 0x1004, "U8TOU32"),
        Err(SimulatorError::UnmappedAddress { address: 0x4000_0000 })
    );
    assert_eq!(emu.cpu.regs.pc, 0x1004);
}

#[test]
fn memory_calls_allocate_fill_and_copy() {
    let mut emu = idle();
    emu.cpu.regs.write(4, 16);
    invoke(&mut emu, 0x1000, "malloc");
    let first = emu.cpu.regs.read(2);
    assert_ne!(first, 0);

    emu.cpu.regs.write(4, first);
    emu.cpu.regs.write(5, 0x1_5a);
    emu.cpu.regs.write(6, 16);
    invoke(&mut emu, 0x1004, "memset");
    assert_eq!(emu.cpu.regs.read(2), first);
    assert_eq!(emu.memory.read_u32(first), Ok(0x5a5a_5a5a));

    emu.cpu.regs.write(5, 32);
    invoke(&mut emu, 0x1008, "realloc");
    let second = emu.cpu.regs.read(2);
    assert_ne!(second, first);
    assert_eq!(emu.memory.read_u32(second + 12), Ok(0x5a5a_5a5a));

    emu.cpu.regs.write(4, 0x400);
    emu.cpu.regs.write(5, second);
    emu.cpu.regs.write(6, 4);
    invoke(&mut emu, 0x100c, "memcpy");
    assert_eq!(emu.memory.read_u32(0x400), Ok(0x5a5a_5a5a));
}

#[test]
fn a_delay_keeps_the_context_waiting_for_its_time() {
    let mut emu = idle();
    emu.cpu.regs.write(4, 2);
    invoke(&mut emu, 0x1000, "delay_ms");
    let deadline = 2 * CPU_CLOCK_HZ / 1_000;
    assert_eq!(emu.scheduler.main_wait, Some(TaskWait::UntilCycle(deadline)));
    assert!(emu.scheduler.active_context_waiting(deadline - 1, true));
    assert!(!emu.scheduler.active_context_waiting(deadline, true));
    assert_eq!(emu.scheduler.main_wait, None);
}

#[test]
fn tasks_are_created_and_deleted_by_calls() {
    let mut emu = idle();
    emu.cpu.regs.write(4, 0x2000);
    emu.cpu.regs.write(5, 7);
    emu.cpu.regs.write(6, 0x3000);
    emu.cpu.regs.write(7, 20);
    invoke(&mut emu, 0x1000, "OSTaskCreate");
    assert_eq!(emu.cpu.regs.read(2), 0);
    assert_eq!(emu.scheduler.tasks.len(), 1);
    assert_eq!(emu.scheduler.tasks[0].cpu.regs.read(4), 7);
    assert_eq!(emu.scheduler.tasks[0].cpu.regs.read(29), 0x3000);

    emu.cpu.regs.write(4, 21);
    invoke(&mut emu, 0x1004, "OSTaskDel");
    assert_eq!(emu.cpu.regs.read(2), 1);
    emu.cpu.regs.write(4, 20);
    invoke(&mut emu, 0x1008, "OSTaskDel");
    assert_eq!(emu.cpu.regs.read(2), 0);
    assert!(!emu.scheduler.tasks[0].cpu.is_running());

    emu.cpu.regs.write(4, 0);
    invoke(&mut emu, 0x100c, "OSTaskCreate");
    assert_eq!(emu.cpu.regs.read(2), u32::MAX);

    emu.cpu.regs.write(4, 0xff);
    invoke(&mut emu, 0x1010, "OSTaskDel");
    assert!(!emu.is_running());
}

#[test]
fn semaphore_calls_report_through_their_pointer() {
    let mut emu = idle();
    emu.cpu.regs.write(4, 99);
    emu.cpu.regs.write(6, 0x500);
    emu.memory.write_u8(0x500, 9).unwrap();
    invoke(&mut emu, 0x1000, "OSSemPend");
    assert_eq!(emu.memory.read_u8(0x500), Ok(1));

    let semaphore = emu.scheduler.create_semaphore(1);
    emu.cpu.regs.write(4, semaphore);
    invoke(&mut emu, 0x1004, "OSSemPend");
    assert_eq!(emu.memory.read_u8(0x500), Ok(0));
    assert_eq!(emu.scheduler.semaphores.get(&semaphore), Some(&0));
    invoke(&mut emu, 0x1008, "OSSemPost");
    assert_eq!(emu.cpu.regs.read(2), 0);
    assert_eq!(emu.scheduler.semaphores.get(&semaphore), Some(&1));
    invoke(&mut emu, 0x100c, "OSSemDel");
    assert!(emu.scheduler.semaphores.is_empty());
    invoke(&mut emu, 0x1010, "OSSemPost");
    assert_eq!(emu.cpu.regs.read(2), 1);
}

#[test]
fn swapped_buttons_reach_the_guest_exchanged() {
    let mut emu = idle();
    emu.input.set_swap_ab(true);
    emu.set_buttons(BUTTON_A | BUTTON_RIGHT);
    assert_eq!(emu.input.buttons(), BUTTON_B | BUTTON_RIGHT);
    let seen = emu.input.buttons();
    emu.set_buttons(seen);
    assert_eq!(emu.input.buttons(), BUTTON_A | BUTTON_RIGHT);
}

#[test]
fn an_unknown_instruction_stops_a_strict_frame() {
    let mut emu = idle();
    emu.memory.write_u32(0x1000, 0xfc00_0000).unwrap();
    emu.cpu.regs.pc = 0x1000;
    emu.start();
    Host::new().tick(&mut emu).unwrap();

    let mut strict = idle();
    strict.memory.write_u32(0x1000, 0xfc00_0000).unwrap();
    strict.cpu.regs.pc = 0x1000;
    strict
        .cpu
        .set_unknown_instruction_policy(dingooemu::cpu::UnknownInstructionPolicy::Stop);
    strict.start();
    assert_eq!(
        Host::new().tick(&mut strict),
        Err(SimulatorError::UnknownInstruction { instruction: 0xfc00_0000 })
    );
}

#[test]
fn calls_that_nothing_implements_are_told_apart() {
    let mut emu = idle();
    invoke(&mut emu, 0x1000, "zeta");
    invoke(&mut emu, 0x1004, "alpha");
    invoke(&mut emu, 0x1008, "zeta");
    let names: Vec<(String, u64)> = emu
        .unknown_hle_calls()
        .iter()
        .map(|call| (call.name.clone(), call.count))
        .collect();
    assert_eq!(names, vec![("alpha".to_string(), 1), ("zeta".to_string(), 2)]);
    emu.clear_unknown_hle_calls();
    assert!(emu.unknown_hle_calls().is_empty());
    assert!(emu.app().is_none());
}

#[test]
fn a_failing_slice_leaves_the_other_contexts_alone() {
    let mut emu = idle();
    assert!(emu.scheduler.create_guest_task(0x4000_0000, 1, 0x1000, 5));
    assert!(emu.scheduler.create_guest_task(0x2000, 2, 0x1800, 6));
    let semaphore = emu.scheduler.create_semaphore(3);
    emu.scheduler.main_wait = Some(TaskWait::Semaphore(semaphore));
    emu.scheduler.scheduler_cursor = 1;
    emu.cpu.regs.write(8, 77);

    let mut tick = emu.begin_tick();
    assert!(emu.begin_slice(&mut tick));
    assert_eq!(emu.scheduler.active_task, Some(0));
    emu.cpu.regs.write(9, 88);
    assert_eq!(
        Host::new().run_slice(&mut emu, &mut tick),
        Err(SimulatorError::UnmappedAddress { address: 0x4000_0000 })
    );
    emu.abort_slice(&mut tick);

    assert!(tick.slice.is_none());
    assert_eq!(tick.remaining_cycles, CYCLES_PER_FRAME);
    assert_eq!(emu.cpu.regs.read(8), 77);
    assert_eq!(emu.scheduler.active_task, None);
    assert_eq!(emu.scheduler.tasks.len(), 2);
    assert_eq!(emu.scheduler.tasks[0].cpu.regs.pc, 0x4000_0000);
    assert_eq!(emu.scheduler.tasks[0].cpu.regs.read(9), 88);
    assert_eq!(emu.scheduler.tasks[0].priority, 5);
    assert_eq!(emu.scheduler.tasks[1].cpu.regs.read(4), 2);
    assert_eq!(emu.scheduler.semaphores[&semaphore], 3);
    assert_eq!(emu.scheduler.main_wait, Some(TaskWait::Semaphore(semaphore)));
}

#[test]
fn sound_that_cannot_be_counted_is_an_error() {
    let mut emu = idle();
    assert!(emu.audio.open(AudioConfig::new(16_000, 16, 1, 100).unwrap()));
    assert!(write_audio(&mut emu, &[0; 2]));
    let last = (u64::MAX - 16_000) / u64::from(OUTPUT_SAMPLE_RATE);
    emu.audio.resampler.input_frames_seen = last;
    emu.audio.resampler.next_output_time = (last - 1) * u64::from(OUTPUT_SAMPLE_RATE) + 1;
    emu.cpu.regs.write(5, 0x2000);
    emu.cpu.regs.write(6, 4);
    let failed = try_invoke_with(&mut Host::new(), &mut emu, 0x4000, "waveout_write");
    assert_eq!(failed, Err(SimulatorError::SoundOverflow));
    assert_eq!(emu.audio.resampler.input_frames_seen, last);
    emu.cpu.regs.write(6, 2);
    invoke(&mut emu, 0x4000, "waveout_write");
    assert_eq!(emu.audio.resampler.input_frames_seen, last + 1);
}
