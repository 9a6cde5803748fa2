use dingooemu::app_image::{AppImage, ResourceKind};
use dingooemu::code_cache::{
    empty_instruction_block_cache, hook_filter_location, instruction_block_cache_index, CodeCache,
    HookTable,
};
use dingooemu::cpu::{Cpu, UnknownInstructionPolicy};
use dingooemu::emulator::Emulator;
use dingooemu::error::SimulatorError;
use dingooemu::files::{FileTable, HostRead};
use dingooemu::isa::{
    is_control_flow, is_memory_instruction, is_supported_delay_instruction,
    is_supported_register_instruction, lowerable_branch,
};
use dingooemu::memory::{Memory, HEAP_BASE, HEAP_END, VM_LCD_FB_ADDRESS};
use dingooemu::save_state::{
    decode, encode, finish_decode, parse_header, read_u32, SaveStateError, SERIALIZED_SIZE,
};
use dingooemu::tasks::{Scheduler, TaskWait, MAX_GUEST_TASKS};

#[test]
fn memory_is_seen_through_its_aliases() {
    let mut memory = Memory::new();
    memory.write_u32(0x8000_1000, 0x1122_3344).unwrap();
    for address in [0x0000_1000, 0x8000_1000, 0xa000_1000] {
        assert_eq!(memory.read_u32(address), Ok(0x1122_3344));
    }
    assert_eq!(memory.read_u8(0x1003), Ok(0x11));
    assert_eq!(memory.read_u16(0x1002), Ok(0x1122));
    memory.write_u16(VM_LCD_FB_ADDRESS, 0xf800).unwrap();
    assert_eq!(memory.read_u16(0x9400_0000), Ok(0xf800));
    assert_eq!(memory.framebuffer()[1], 0xf8);
    assert_eq!(memory.read_u32(0x1308_0000), Ok(0));
    assert_eq!(
        memory.read_u8(0x4000_0000),
        Err(SimulatorError::UnmappedAddress { address: 0x4000_0000 })
    );
    assert_eq!(
        memory.write_u32(0x0200_0000, 1),
        Err(SimulatorError::UnmappedAddress { address: 0x0200_0000 })
    );
}

#[test]
fn a_partial_copy_ends_where_memory_does() {
    let mut memory = Memory::new();
    assert_eq!(
        memory.load_data(0x01ff_fffe, &[1, 2, 3]),
        Err(SimulatorError::UnmappedAddress { address: 0x0200_0000 })
    );
    assert_eq!(memory.read_u8(0x01ff_ffff), Ok(2));
    assert_eq!(memory.read_bytes(0x01ff_fffe, 2), Ok(vec![1, 2]));
    memory.load_data(0x100, b"abc\0").unwrap();
    assert_eq!(memory.read_string_len(0x100), 3);
}

#[test]
fn the_heap_runs_out() {
    let mut memory = Memory::new();
    let first = memory.malloc(10);
    let second = memory.malloc(10);
    assert_eq!(first, HEAP_BASE);
    assert!(second >= first + 10);
    assert_eq!(memory.malloc(HEAP_END - HEAP_BASE), 0);
    assert_eq!(memory.malloc(0x1000) & 3, 0);
}

#[test]
fn instruction_kinds_are_told_apart() {
    let beq = (0x04 << 26) | 1;
    let lw = 0x23 << 26;
    let addiu = 0x09 << 26;
    let syscall = 0x0000_000c;
    assert!(is_control_flow(beq) && lowerable_branch(beq));
    assert!(is_memory_instruction(lw) && !is_control_flow(lw));
    assert!(is_supported_register_instruction(addiu) && !is_memory_instruction(addiu));
    assert!(is_supported_delay_instruction(lw) && is_supported_delay_instruction(addiu));
    assert!(!is_supported_delay_instruction(beq));
    assert!(!is_supported_register_instruction(syscall));
}

#[test]
fn the_interpreter_takes_branches_after_their_delay_slot() {
    let mut cpu = Cpu::new(0x1000);
    let mut memory = Memory::new();
    cpu.start();
    let beq = (0x04 << 26) | 4;
    let addiu = (0x09 << 26) | (8 << 16) | 0xffff;
    assert!(cpu.step_fetched_unaccounted(beq, &mut memory).unwrap());
    assert_eq!(cpu.regs.pc, 0x1004);
    assert!(cpu.step_fetched_unaccounted(addiu, &mut memory).unwrap());
    assert_eq!(cpu.regs.pc, 0x1014);
    assert_eq!(cpu.regs.read(8), u32::MAX);
    cpu.regs.write(0, 7);
    assert_eq!(cpu.regs.read(0), 0);
}

#[test]
fn the_interpreter_reports_what_it_cannot_do() {
    let mut cpu = Cpu::new(0x1000);
    let mut memory = Memory::new();
    assert_eq!(cpu.step_fetched_unaccounted(0, &mut memory), Ok(false));
    cpu.start();
    assert_eq!(cpu.step_fetched_unaccounted(0xfc00_0000, &mut memory), Ok(true));
    cpu.set_unknown_instruction_policy(UnknownInstructionPolicy::Stop);
    assert_eq!(
        cpu.step_fetched_unaccounted(0xfc00_0000, &mut memory),
        Err(SimulatorError::UnknownInstruction { instruction: 0xfc00_0000 })
    );
    cpu.regs.write(9, 0x4000_0000);
    assert_eq!(
        cpu.step_fetched_unaccounted((0x23 << 26) | (9 << 21), &mut memory),
        Err(SimulatorError::UnmappedAddress { address: 0x4000_0000 })
    );
}

#[test]
fn hooks_are_found_and_blocks_end_before_them() {
    assert_eq!(hook_filter_location(0x1000), (16, 1));
    assert_eq!(instruction_block_cache_index(0x1004), 0x401);
    let mut code = CodeCache {
        hooks: HookTable::new(),
        blocks: empty_instruction_block_cache(),
        app_main_entry: Some(0x1010),
        app_main_init_check_address: None,
    };
    let memory = Memory::new();
    code.ensure_instruction_block(&memory, 0x1000).unwrap();
    assert_eq!(code.blocks[instruction_block_cache_index(0x1000)].len, 4);
    code.ensure_instruction_block(&memory, 0x1010).unwrap();
    assert_eq!(code.blocks[instruction_block_cache_index(0x1010)].len, 64);
    assert!(code.is_instruction_block_boundary(0xffff_ffff));
    assert!(!code.is_instruction_block_boundary(0x1014));
    assert_eq!(
        code.ensure_instruction_block(&memory, 0x01ff_fffc),
        Err(SimulatorError::UnmappedAddress { address: 0x0200_0000 })
    );
}

#[test]
fn the_most_urgent_waiter_is_woken() {
    let mut scheduler = Scheduler::new();
    let semaphore = scheduler.create_semaphore(0);
    for priority in [30, 10, 20, 10] {
        assert!(scheduler.create_guest_task(0x1000, 0, 0, priority));
        let last = scheduler.tasks.len() - 1;
        scheduler.active_task = Some(last);
        assert!(scheduler.pend_semaphore(semaphore));
    }
    scheduler.active_task = None;
    assert!(scheduler.post_semaphore(semaphore));
    let waiting: Vec<bool> = scheduler.tasks.iter().map(|task| task.wait.is_some()).collect();
    assert_eq!(waiting, vec![true, false, true, true]);
    assert_eq!(scheduler.tasks[0].wait, Some(TaskWait::Semaphore(semaphore)));
}

#[test]
fn a_signal_without_waiter_is_kept() {
    let mut scheduler = Scheduler::new();
    let semaphore = scheduler.create_semaphore(u32::MAX - 1);
    assert!(scheduler.post_semaphore(semaphore));
    assert!(scheduler.post_semaphore(semaphore));
    assert_eq!(scheduler.semaphores[&semaphore], u32::MAX);
    assert!(!scheduler.post_semaphore(99));
    assert!(scheduler.delete_semaphore(semaphore));
    assert!(!scheduler.delete_semaphore(semaphore));
    for _ in 0..MAX_GUEST_TASKS {
        assert!(scheduler.create_guest_task(0x1000, 0, 0, 1));
    }
    assert!(!scheduler.create_guest_task(0x1000, 0, 0, 1));
}

#[test]
fn files_open_by_their_mode() {
    let mut files = FileTable::new();
    let path = || Some("/saves/a.dat".to_string());
    let data = || HostRead::Data(b"old".to_vec());
    let resource = || Some((ResourceKind::Plain, b"resource".to_vec()));

    let handle = files.open_guest_file("a.dat", "a", path(), data(), None, HostRead::NotFound);
    assert_eq!(files.files[&handle].position, 3);
    assert!(files.files[&handle].dirty);

    let handle = files.open_guest_file("a.dat", "r+", path(), data(), None, HostRead::NotFound);
    assert_eq!(files.files[&handle].position, 0);
    assert!(files.files[&handle].writable && !files.files[&handle].dirty);

    let handle = files.open_guest_file(
        "a.dat",
        "r",
        path(),
        HostRead::NotFound,
        resource(),
        HostRead::NotFound,
    );
    assert_eq!(files.files[&handle].data, b"resource");
    assert!(!files.files[&handle].writable);

    let handle = files.open_guest_file("a.dat", "w", None, data(), resource(), data());
    assert_eq!(handle, 0);

    let handle =
        files.open_guest_file("a.dat", "", None, HostRead::Failed, None, data());
    assert_eq!(files.files[&handle].data, b"old");
    assert_eq!(files.flush_save_files(), vec![1]);
}

#[test]
fn what_is_written_is_read_back() {
    let mut files = FileTable::new();
    let mut memory = Memory::new();
    let handle = files.open_guest_file(
        "a.dat",
        "w+",
        Some("/saves/a.dat".to_string()),
        HostRead::NotFound,
        None,
        HostRead::NotFound,
    );
    memory.load_data(0x100, b"0123456789").unwrap();
    assert_eq!(files.write_file(&memory, 0x100, 5, 2, handle), Ok(2));
    assert_eq!(files.seek_file(handle, 2, 0), 0);
    assert_eq!(files.write_file(&memory, 0x100, 1, 3, handle), Ok(3));
    assert_eq!(files.files[&handle].data, b"0101256789");
    assert_eq!(files.seek_file(handle, -3, 1), 0);
    assert_eq!(files.read_file(&mut memory, 0x200, 1, 3, handle), Ok(3));
    assert_eq!(memory.read_bytes(0x200, 3), Ok(b"012".to_vec()));
    assert_eq!(files.seek_file(handle, 0, 7), u32::MAX);
    assert_eq!(files.read_file(&mut memory, 0x200, 0, 3, handle), Ok(0));
    assert_eq!(files.read_file(&mut memory, 0x200, 1, 3, 99), Ok(0));
    let (path, data) = files.flush_request(handle).unwrap();
    assert_eq!((path.as_str(), data.len()), ("/saves/a.dat", 10));
    files.file_flushed(handle);
    assert!(files.flush_request(handle).is_none());
}

#[test]
fn containers_name_their_content_and_shrink_their_state() {
    let app = AppImage {
        data: b"123456789".to_vec(),
        load_base: 0x8000_0000,
        entry_point: 0x8000_0000,
        executable: vec![0u8; 4],
        imports: Vec::new(),
        exports: Vec::new(),
    };
    let emu = Emulator::from_app(app, false).unwrap();
    let state = vec![5u8; 100_000];
    let mut output = vec![1u8; SERIALIZED_SIZE];
    emu.serialize_state(&state, &mut output).unwrap();
    assert_eq!(&output[..8], b"DINGSTAT");
    assert_eq!(read_u32(&output, 8), 3);
    assert_eq!(read_u32(&output, 12), 0xcbf4_3926);
    assert!(read_u32(&output, 16) < 1_000);
    assert_eq!(read_u32(&output, 20), 100_000);
    assert_eq!(output[SERIALIZED_SIZE - 1], 0);
    assert_eq!(emu.unserialize_state(&output).unwrap(), state);
}

#[test]
fn a_payload_is_checked_before_it_counts() {
    let state = vec![9u8; 64];
    let mut output = vec![0u8; SERIALIZED_SIZE];
    encode(&state, 7, &mut output).unwrap();
    let header = parse_header(&output, 7).unwrap();
    assert_eq!(header.decoded_len, 64);
    assert_eq!(decode(&output, 7), Ok(state.clone()));
    assert_eq!(
        finish_decode(&header, header.payload_crc32, Some(state.clone())),
        Ok(state.clone())
    );
    assert_eq!(
        finish_decode(&header, header.payload_crc32, None),
        Err(SaveStateError::Malformed)
    );
    assert_eq!(
        finish_decode(&header, header.payload_crc32 ^ 1, Some(state)),
        Err(SaveStateError::ChecksumMismatch)
    );
}

#[test]
fn saved_files_go_beside_the_application_at_first() {
    let app = || AppImage {
        data: vec![0u8; 132],
        load_base: 0x8000_0000,
        entry_point: 0x8000_0000,
        executable: vec![0u8; 4],
        imports: Vec::new(),
        exports: Vec::new(),
    };
    let emu =
        Emulator::from_app_with_path(app(), "games/astro/Astro.app".to_string(), false).unwrap();
    assert_eq!(emu.save_directory.as_deref(), Some("games/astro"));
    assert_eq!(Emulator::from_app(app(), false).unwrap().save_directory, None);
}
