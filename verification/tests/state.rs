use dingooemu::app_image::AppImage;
use dingooemu::audio::AudioConfig;
use dingooemu::directories::strip_directory;
use dingooemu::emulator::{Emulator, GuiState, Video};
use dingooemu::files::{HostRead, OpenFile};
use dingooemu::input::BUTTON_A;
use dingooemu::memory::Memory;
use dingooemu::paths::join_path;
use dingooemu::save_state::{SaveStateError, HEADER_SIZE, SERIALIZED_SIZE};
use dingooemu::search::{FileSearch, SearchTable};
use dingooemu::state::{EmulatorState, StateError};
use dingooemu::tasks::Scheduler;
use std::collections::HashMap;

fn minimal_app() -> AppImage {
    AppImage {
        data: vec![0u8; 132],
        load_base: 0x8000_0000,
        entry_point: 0x8000_0000,
        executable: vec![0u8; 4],
        imports: Vec::new(),
        exports: Vec::new(),
    }
}

fn copy_gui(gui: &GuiState) -> GuiState {
    GuiState {
        key_messages_enabled: gui.key_messages_enabled,
        windows: gui.windows.clone(),
        focused_window: gui.focused_window,
        next_window_handle: gui.next_window_handle,
        reported_key: gui.reported_key,
        message_buffer: gui.message_buffer,
        key_info_buffer: gui.key_info_buffer,
    }
}

fn copy_audio(audio: &dingooemu::audio::Audio) -> dingooemu::audio::Audio {
    dingooemu::audio::Audio {
        config: audio.config,
        volume: audio.volume,
        master_volume: audio.master_volume,
        muted: audio.muted,
        pending_samples: audio.pending_samples.clone(),
        output_frame_remainder: audio.output_frame_remainder,
        resampler: audio.resampler,
    }
}

// Everything that a state holds, with the paths that are saved.
fn capture(emu: &Emulator) -> Result<EmulatorState, StateError> {
    let paths = emu.relative_save_paths()?;
    Ok(EmulatorState {
        cpu: emu.cpu,
        memory: Memory {
            ram: emu.memory.ram.clone(),
            framebuffer: emu.memory.framebuffer.clone(),
            heap_next: emu.memory.heap_next,
        },
        video: Video {
            framebuffer: emu.video.framebuffer.clone(),
            frame: emu.video.frame,
        },
        input: emu.input,
        audio: copy_audio(&emu.audio),
        frame_count: emu.frame_count,
        cycle_count: emu.cycle_count,
        scheduler: Scheduler {
            tasks: emu.scheduler.tasks.clone(),
            scheduler_cursor: emu.scheduler.scheduler_cursor,
            main_wait: emu.scheduler.main_wait,
            active_task: emu.scheduler.active_task,
            semaphores: emu.scheduler.semaphores.clone(),
            next_semaphore_handle: emu.scheduler.next_semaphore_handle,
        },
        open_files: paths
            .into_iter()
            .map(|(handle, save_path)| {
                let file = &emu.files.files[&handle];
                (
                    handle,
                    OpenFile {
                        data: file.data.clone(),
                        position: file.position,
                        data_ptr: file.data_ptr,
                        save_path,
                        writable: file.writable,
                        dirty: file.dirty,
                    },
                )
            })
            .collect(),
        next_file_handle: emu.files.next_file_handle,
        searches: SearchTable {
            searches: emu
                .searches
                .searches
                .iter()
                .map(|(key, search)| {
                    (
                        *key,
                        FileSearch {
                            entries: search.entries.clone(),
                            next_index: search.next_index,
                        },
                    )
                })
                .collect::<HashMap<_, _>>(),
        },
        gui: copy_gui(&emu.gui),
        app_main_args_initialized: emu.app_main_args_initialized,
        locale_ansi_buffer: emu.locale_ansi_buffer,
        framebuffer_submitted: emu.framebuffer_submitted,
    })
}

fn saved_file(path: &str) -> OpenFile {
    OpenFile {
        data: b"open save data".to_vec(),
        position: 4,
        data_ptr: 0,
        save_path: Some(path.to_string()),
        writable: true,
        dirty: true,
    }
}

#[test]
fn test_save_state_round_trip_and_transactional_rejection() {
    let mut emu = Emulator::from_app(minimal_app(), false).unwrap();
    let save_directory = "/tmp/dingooemu-state-save-root";
    emu.set_save_directory(save_directory.to_string());
    emu.start();
    emu.cpu.regs.write(8, 0x1234_5678);
    emu.memory.write_u32(0x2000, 0xaabb_ccdd).unwrap();
    emu.input.set_buttons(BUTTON_A);
    emu.frame_count = 42;
    emu.cycle_count = 987_654;
    emu.files.put(7, saved_file("/tmp/dingooemu-state-save-root/profile.dat"));
    emu.searches.searches.insert(
        0x3000,
        FileSearch {
            entries: vec!["first.mod".to_string(), "second.xm".to_string()],
            next_index: 1,
        },
    );
    emu.gui.key_messages_enabled = true;
    emu.gui.windows.push((3, 0x8000_4000));
    emu.gui.focused_window = Some(3);
    emu.gui.next_window_handle = 4;
    emu.gui.reported_key = 18;
    emu.gui.message_buffer = Some(0x2100);
    emu.gui.key_info_buffer = Some(0x2200);

    let state = capture(&emu).unwrap();
    assert_eq!(state.open_files[0].1.save_path, Some("profile.dat".to_string()));
    emu.cpu.regs.write(8, 0);
    emu.memory.write_u32(0x2000, 0).unwrap();
    emu.input.set_buttons(0);
    emu.frame_count = 0;
    emu.files.close_file(7);
    emu.searches.searches.clear();
    emu.gui = GuiState::new();

    emu.restore_state(state).unwrap();
    assert_eq!(emu.cpu.regs.read(8), 0x1234_5678);
    assert_eq!(emu.memory.read_u32(0x2000).unwrap(), 0xaabb_ccdd);
    assert_eq!(emu.input.buttons(), BUTTON_A);
    assert_eq!(emu.frame_count, 42);
    assert_eq!(emu.cycle_count, 987_654);
    assert!(emu.is_running());
    assert_eq!(emu.files.files[&7].data, b"open save data");
    assert_eq!(emu.searches.searches[&0x3000].next_index, 1);
    assert_eq!(emu.searches.searches[&0x3000].entries[1], "second.xm");
    assert!(emu.gui.key_messages_enabled);
    assert_eq!(emu.gui.windows, vec![(3, 0x8000_4000)]);
    assert_eq!(emu.gui.focused_window, Some(3));
    assert_eq!(emu.gui.next_window_handle, 4);
    assert_eq!(emu.gui.reported_key, 18);
    assert_eq!(emu.gui.message_buffer, Some(0x2100));
    assert_eq!(emu.gui.key_info_buffer, Some(0x2200));
    assert_eq!(
        emu.files.files[&7].save_path.as_deref(),
        Some("/tmp/dingooemu-state-save-root/profile.dat")
    );

    // The container of a state, here of some bytes that stand for it.
    let bytes = emu.memory.ram[0x1f00..0x2f00].to_vec();
    let mut container = vec![0; emu.serialized_state_size()];
    emu.serialize_state(&bytes, &mut container).unwrap();
    assert_eq!(emu.unserialize_state(&container).unwrap(), bytes);

    let unchanged_pc = emu.cpu.regs.pc;
    let unchanged_memory = emu.memory.read_u32(0x2000).unwrap();
    container[32] ^= 1;
    assert_eq!(
        emu.unserialize_state(&container),
        Err(StateError::Container(SaveStateError::ChecksumMismatch))
    );
    assert_eq!(emu.cpu.regs.pc, unchanged_pc);
    assert_eq!(emu.memory.read_u32(0x2000).unwrap(), unchanged_memory);

    container[32] ^= 1;
    let mut other_app = minimal_app();
    other_app.data.push(1);
    let mut other = Emulator::from_app(other_app, false).unwrap();
    other.cpu.regs.pc = 0x8765_4321;
    assert_eq!(
        other.unserialize_state(&container),
        Err(StateError::Container(SaveStateError::DifferentContent))
    );
    assert_eq!(other.cpu.regs.pc, 0x8765_4321);
}

#[test]
fn refused_states_change_nothing() {
    let mut emu = Emulator::from_app(minimal_app(), false).unwrap();
    emu.cpu.regs.write(8, 77);

    let mut state = capture(&emu).unwrap();
    state.memory.ram.pop();
    assert_eq!(emu.restore_state(state), Err(StateError::IncompatibleMemory));

    let mut state = capture(&emu).unwrap();
    state.video.framebuffer.push(0);
    assert_eq!(emu.restore_state(state), Err(StateError::IncompatibleMemory));

    let mut state = capture(&emu).unwrap();
    state.scheduler.active_task = Some(0);
    assert_eq!(emu.restore_state(state), Err(StateError::InvalidTasks));

    let mut state = capture(&emu).unwrap();
    state.open_files.push((1, saved_file("../outside.dat")));
    assert_eq!(emu.restore_state(state), Err(StateError::UnsafePath));

    let mut state = capture(&emu).unwrap();
    state.open_files.push((1, saved_file("inside.dat")));
    assert_eq!(emu.restore_state(state), Err(StateError::NoSaveDirectory));

    assert_eq!(emu.cpu.regs.read(8), 77);
    assert!(emu.files.files.is_empty());

    let state = capture(&emu).unwrap();
    assert_eq!(Emulator::default().restore_state(state), Err(StateError::NoContent));
}

#[test]
fn only_files_in_the_save_directory_are_saved() {
    let mut emu = Emulator::from_app(minimal_app(), false).unwrap();
    emu.files.put(1, saved_file("/saves/a.dat"));
    assert_eq!(emu.relative_save_paths(), Err(StateError::NoSaveDirectory));
    emu.set_save_directory("/other".to_string());
    assert_eq!(emu.relative_save_paths(), Err(StateError::OutsideSaveDirectory));
    emu.set_save_directory("/saves/a.dat".to_string());
    assert_eq!(emu.relative_save_paths(), Err(StateError::UnsafePath));
    emu.set_save_directory("/saves".to_string());
    assert_eq!(emu.relative_save_paths(), Ok(vec![(1, Some("a.dat".to_string()))]));
    assert_eq!(Emulator::default().relative_save_paths(), Err(StateError::NoContent));
}

#[test]
fn containers_refuse_what_they_are_not_made_for() {
    let emu = Emulator::from_app(minimal_app(), false).unwrap();
    let state = vec![7u8; 1000];
    let container_error = |error| Err(StateError::Container(error));

    let mut small = vec![0; 100];
    assert_eq!(
        emu.serialize_state(&state, &mut small),
        container_error(SaveStateError::BufferTooSmall(100))
    );
    assert_eq!(
        Emulator::default().serialize_state(&state, &mut small),
        Err(StateError::NoContent)
    );
    assert_eq!(
        Emulator::default().unserialize_state(&small),
        Err(StateError::NoContent)
    );

    let mut container = vec![0; SERIALIZED_SIZE];
    emu.serialize_state(&state, &mut container).unwrap();
    let check = |change: &dyn Fn(&mut Vec<u8>), expected: SaveStateError| {
        let mut changed = container[..2048].to_vec();
        change(&mut changed);
        assert_eq!(
            emu.unserialize_state(&changed),
            Err(StateError::Container(expected))
        );
    };
    check(&|bytes| bytes.truncate(HEADER_SIZE - 1), SaveStateError::Truncated);
    check(&|bytes| bytes[0] = 0, SaveStateError::BadSignature);
    check(&|bytes| bytes[8] = 9, SaveStateError::UnsupportedVersion(9));
    check(&|bytes| bytes[12] ^= 1, SaveStateError::DifferentContent);
    check(
        &|bytes| bytes[20..24].copy_from_slice(&u32::MAX.to_le_bytes()),
        SaveStateError::DecodedTooLarge(u32::MAX as usize),
    );
    check(
        &|bytes| bytes[16..20].copy_from_slice(&u32::MAX.to_le_bytes()),
        SaveStateError::BadPayloadLength,
    );
    check(&|bytes| bytes[HEADER_SIZE] ^= 0x40, SaveStateError::ChecksumMismatch);
    check(
        &|bytes| bytes[20..24].copy_from_slice(&1u32.to_le_bytes()),
        SaveStateError::Malformed,
    );
}

#[test]
fn a_state_that_is_too_long_is_not_saved() {
    let emu = Emulator::from_app(minimal_app(), false).unwrap();
    let state = vec![0u8; 128 * 1024 * 1024 + 1];
    let mut container = vec![0; SERIALIZED_SIZE];
    assert_eq!(
        emu.serialize_state(&state, &mut container),
        Err(StateError::Container(SaveStateError::DecodedTooLarge(state.len())))
    );
}

#[test]
fn directories_are_compared_part_by_part() {
    let strip = |directory: &str, path: &str| strip_directory(directory, path);
    assert_eq!(strip("/saves", "/saves/a/b.dat"), Some("a/b.dat".to_string()));
    assert_eq!(strip("/saves/", "/saves//a/./b.dat"), Some("a/b.dat".to_string()));
    assert_eq!(strip("/save", "/saves/a"), None);
    assert_eq!(strip("saves", "/saves/a"), None);
    assert_eq!(strip("", "a/b"), Some("a/b".to_string()));
    assert_eq!(strip("/saves", "/saves"), Some(String::new()));
    assert_eq!(strip("./saves", "./saves/a"), Some("a".to_string()));
    assert_eq!(strip("saves", "./saves/a"), None);
}

#[test]
fn stripping_is_undone_by_joining() {
    for (directory, path, same) in [
        ("/saves", "/saves/a.dat", "/saves/a.dat"),
        ("/saves//", "/saves/a.dat", "/saves//a.dat"),
        ("", "./a.dat", "./a.dat"),
        (".", "./a//b.dat", "./a/b.dat"),
    ] {
        let relative = strip_directory(directory, path).unwrap();
        let joined = join_path(directory, &relative);
        assert_eq!(joined, same);
        assert_eq!(strip_directory(path, &joined), Some(String::new()));
        assert_eq!(strip_directory(&joined, path), Some(String::new()));
    }
}

#[test]
fn restored_counters_are_taken_as_they_are() {
    let mut emu = Emulator::from_app(minimal_app(), false).unwrap();
    let mut state = capture(&emu).unwrap();
    state.next_file_handle = 0;
    state.scheduler.next_semaphore_handle = 0;
    state.audio.master_volume = 200;
    state.audio.resampler.input_frames_seen = u64::MAX;
    emu.restore_state(state).unwrap();

    assert_eq!(emu.scheduler.create_semaphore(4), 0);
    assert_eq!(emu.scheduler.create_semaphore(5), 1);
    assert_eq!(emu.audio.master_volume(), 200);
    assert!(emu.audio.open(AudioConfig::new(8_000, 8, 1, 100).unwrap()));
    assert!(emu.audio.can_take(&[0; 100]));

    let path = Some("/saves/a.dat".to_string());
    let saved = HostRead::Data(b"saved".to_vec());
    let found = HostRead::Data(b"found".to_vec());
    assert_eq!(emu.files.open_guest_file("a.dat", "r", path, saved, None, found), 1);
    assert_eq!(emu.files.files[&0].data, b"saved");
    assert_eq!(emu.files.files[&1].data, b"found");
    assert_eq!(emu.files.next_file_handle, 2);
}
