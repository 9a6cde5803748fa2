//! The emulated machine: an application, its contexts, and one frame of work at
//! a time.
//!
//! A frame is a sequence of slices, one context at a time. The machine says what
//! comes next in a slice; calls of hooked functions and native code are run by
//! the host, which reports back.

use crate::app_image::{AppImage, Symbol};
use crate::audio::{frame_taken, Audio};
use crate::code_cache::{block_slot, CodeCache, HookTable};
use crate::cpu::{interpret, Cpu, CpuState, Interpreted, Registers, UnknownInstructionPolicy};
use crate::directories::{parent_directory, parent_of};
use crate::error::SimulatorError;
use crate::files::FileTable;
use crate::game_enhancements::{
    apply_frame_rate_enhancement, first_obstacle, frame_rate_enhancement_profile, known_patches,
    patched,
};
use crate::input::{no_input, Input};
use crate::isa::{with_reg, REGISTER_COUNT};
use crate::jit::engine::{
    action_for, emptied, frame_begun, interpreted, requested, run_finished, CompiledBlock,
    JitAction, JitDiagnostics, JitEngine, RunOrigin,
};
use crate::memory::{
    accessible_prefix, allocation, bytes_accessible, half_address, half_prefix, heap_after, put_bytes,
    put_halves, FRAMEBUFFER_MAP_SIZE, FRAMEBUFFER_SIZE, KSEG_MASK, Memory, MemoryView,
    VM_LCD_FB_ADDRESS,
};
use crate::search::SearchTable;
use crate::tasks::{
    running_tasks, wait_is_over, GuestTask, Scheduler, SchedulerView, TASK_RETURN_ADDRESS,
};
use crate::state::text_view;
use crate::text::{encode_utf16, text_equal, utf16_encoded};
use crate::unknown_hle::{UnknownHleCall, UnknownHleLog, UnknownHlePolicy};
use vstd::prelude::*;
use vstd::string::*;

verus! {

/// Guest processor clock.
pub const CPU_CLOCK_HZ: u64 = 336_000_000;

/// Ticks per second of the guest's operating system.
pub const OS_TICKS_PER_SECOND: u64 = 100;

/// Guest cycles in one video frame.
pub const CYCLES_PER_FRAME: u64 = 5_600_000;

/// Average cycles per instruction, stalls included.
pub const CPU_CYCLES_PER_INSTRUCTION: u64 = 2;

/// Load address of applications that initialize the LCD themselves.
pub const STANDARD_APP_LOAD_BASE: u32 = 0x80A0_0000;

/// Cycles of a slice at most.
pub const TASK_QUANTUM_CYCLES: u64 = 4_096;

/// Stack pointer of the main context.
pub const INITIAL_STACK_POINTER: u32 = 0x01FF_FFF0;

/// Distance of the startup check from the start of the main function.
pub const INIT_CHECK_OFFSET: u32 = 0x34;

/// The picture that the frontend shows.
pub struct Video {
    pub framebuffer: Vec<u8>,
    pub frame: u64,
}

impl Video {
    pub open spec fn wf(&self) -> bool {
        self.framebuffer@.len() == FRAMEBUFFER_SIZE
    }

    /// Whether nothing was shown yet.
    pub open spec fn is_new(&self) -> bool {
        &&& self.frame == 0
        &&& self.framebuffer@ == Seq::new(FRAMEBUFFER_SIZE as nat, |i: int| 0u8)
    }

    /// A black picture.
    pub fn new() -> (video: Video)
        ensures
            video.wf(),
            video.is_new(),
    {
        let framebuffer: Vec<u8> = vec![0u8; FRAMEBUFFER_SIZE];
        assert(framebuffer@ =~= Seq::new(FRAMEBUFFER_SIZE as nat, |i: int| 0u8));
        Video { framebuffer, frame: 0 }
    }
}

/// Windows of the guest's window manager and what is known of key messages.
#[derive(Debug)]
pub struct GuiState {
    pub key_messages_enabled: bool,
    /// Window handles with their callbacks, in the order of the handles.
    pub windows: Vec<(u32, u32)>,
    pub focused_window: Option<u32>,
    pub next_window_handle: u32,
    pub reported_key: u32,
    pub message_buffer: Option<u32>,
    pub key_info_buffer: Option<u32>,
}

impl GuiState {
    /// Whether there are no windows and no key messages.
    pub open spec fn is_new(&self) -> bool {
        &&& !self.key_messages_enabled
        &&& self.windows@.len() == 0
        &&& self.focused_window is None
        &&& self.next_window_handle == 1
        &&& self.reported_key == 0
        &&& self.message_buffer is None
        &&& self.key_info_buffer is None
    }

    /// No windows.
    pub fn new() -> (gui: GuiState)
        ensures
            gui.is_new(),
    {
        GuiState {
            key_messages_enabled: false,
            windows: Vec::new(),
            focused_window: None,
            next_window_handle: 1,
            reported_key: 0,
            message_buffer: None,
            key_info_buffer: None,
        }
    }
}

/// The emulated machine.
pub struct Emulator {
    pub cpu: Cpu,
    pub memory: Memory,
    pub video: Video,
    pub input: Input,
    pub audio: Audio,
    pub frame_count: u64,
    pub cycle_count: u64,
    pub scheduler: Scheduler,
    pub app: Option<AppImage>,
    pub code: CodeCache,
    pub jit: JitEngine,
    pub unknown_hle: UnknownHleLog,
    pub files: FileTable,
    /// Host directory for files that the guest creates.
    pub save_directory: Option<String>,
    pub searches: SearchTable,
    pub gui: GuiState,
    pub app_main_args_initialized: bool,
    pub app_path: String,
    /// Guest buffer for converted strings.
    pub locale_ansi_buffer: Option<u32>,
    /// Whether the guest submitted a picture in this frame.
    pub framebuffer_submitted: bool,
}

/// The name that the application's main function is given.
pub open spec fn app_file_name(app_path: Seq<char>) -> Seq<char> {
    if app_path.len() == 0 {
        "game.app"@
    } else {
        after_separator(app_path)
    }
}

/// The part of a path behind its last separator.
pub open spec fn after_separator(path: Seq<char>) -> Seq<char>
    decreases path.len(),
{
    if path.len() == 0 {
        path
    } else if path.last() == '/' || path.last() == '\\' {
        Seq::empty()
    } else {
        after_separator(path.drop_last()).push(path.last())
    }
}

fn file_name_of(app_path: &str) -> (name: String)
    ensures
        name@ == app_file_name(app_path@),
{
    let chars: Vec<char> = crate::paths::to_chars(app_path);
    let length: usize = chars.len();
    if length == 0 {
        return "game.app".to_owned();
    }
    let mut start: usize = length;
    assert(app_path@.take(length as int) =~= app_path@);
    assert(app_path@.subrange(start as int, length as int) =~= Seq::<char>::empty());
    assert(after_separator(app_path@.take(start as int)) + Seq::<char>::empty() =~= after_separator(
        app_path@,
    ));
    while start > 0 && chars[start - 1] != '/' && chars[start - 1] != '\\'
        invariant
            start <= length,
            length == chars@.len(),
            chars@ == app_path@,
            after_separator(app_path@) == after_separator(app_path@.take(start as int))
                + app_path@.subrange(start as int, length as int),
        decreases start,
    {
        proof {
            let shorter = app_path@.take(start - 1);
            assert(app_path@.take(start as int).drop_last() =~= shorter);
            assert(after_separator(shorter).push(app_path@[start - 1]) + app_path@.subrange(
                start as int,
                length as int,
            ) =~= after_separator(shorter) + app_path@.subrange(start - 1, length as int));
        }
        start = start - 1;
    }
    let rest = vstd::slice::slice_subrange(chars.as_slice(), start, length);
    assert(rest@ =~= app_path@.subrange(start as int, length as int));
    assert(after_separator(app_path@.take(start as int)) =~= Seq::<char>::empty());
    assert(after_separator(app_path@) =~= rest@);
    crate::paths::from_chars(rest)
}

/// Address of an exported function.
pub open spec fn export_address(exports: Seq<Symbol>, name: Seq<char>, from: int) -> Option<u32>
    decreases exports.len() - from,
{
    if from < 0 || from >= exports.len() {
        None
    } else if exports[from].name@ == name {
        Some(exports[from].address)
    } else {
        export_address(exports, name, from + 1)
    }
}

fn find_export(exports: &Vec<Symbol>, name: &str) -> (address: Option<u32>)
    ensures
        address == export_address(exports@, name@, 0),
{
    let mut index: usize = 0;
    while index < exports.len()
        invariant
            index <= exports@.len(),
            export_address(exports@, name@, 0) == export_address(exports@, name@, index as int),
        decreases exports@.len() - index,
    {
        if text_equal(exports[index].name.as_str(), name) {
            return Some(exports[index].address);
        }
        index = index + 1;
    }
    None
}

/// Hooked addresses for a list of imports: each import at its physical address
/// and at its own.
pub open spec fn import_hooks(imports: Seq<Symbol>) -> Map<u32, String>
    decreases imports.len(),
{
    if imports.len() == 0 {
        Map::empty()
    } else {
        let import = imports.last();
        import_hooks(imports.drop_last()).insert(
            import.address & KSEG_MASK,
            import.name,
        ).insert(import.address, import.name)
    }
}

fn build_hooks(imports: &Vec<Symbol>) -> (hooks: HookTable)
    ensures
        hooks.wf(),
        hooks.names@ == import_hooks(imports@),
{
    let mut hooks = HookTable::new();
    let mut index: usize = 0;
    assert(imports@.take(0) =~= Seq::<Symbol>::empty());
    while index < imports.len()
        invariant
            index <= imports@.len(),
            hooks.wf(),
            hooks.names@ == import_hooks(imports@.take(index as int)),
        decreases imports@.len() - index,
    {
        assert(imports@.take(index + 1).drop_last() =~= imports@.take(index as int));
        let import = &imports[index];
        let physical: u32 = import.address & KSEG_MASK;
        let ghost before = hooks.names@;
        hooks.insert(physical, import.name.clone());
        if physical != import.address {
            hooks.insert(import.address, import.name.clone());
        } else {
            assert(hooks.names@ =~= before.insert(physical, import.name).insert(
                import.address,
                import.name,
            ));
        }
        index = index + 1;
    }
    assert(imports@.take(index as int) =~= imports@);
    hooks
}

/// Registers of a machine that starts an application.
pub open spec fn initial_registers(app: AppImage) -> Seq<u32> {
    let zero = Seq::new(REGISTER_COUNT as nat, |i: int| 0u32);
    let linked = match export_address(app.exports@, "AppMain"@, 0) {
        Some(main) => with_reg(with_reg(zero, 31, main), 25, app.entry_point),
        None => zero,
    };
    with_reg(
        with_reg(
            linked,
            5,
            if app.load_base != STANDARD_APP_LOAD_BASE {
                1
            } else {
                0
            },
        ),
        29,
        INITIAL_STACK_POINTER,
    )
}

fn start_cpu(app: &AppImage, app_main: Option<u32>) -> (cpu: Cpu)
    requires
        app_main == export_address(app.exports@, "AppMain"@, 0),
    ensures
        cpu.regs.pc == app.entry_point,
        cpu.regs.file() == initial_registers(*app),
        cpu.is_fresh(),
        !cpu.running,
{
    let mut cpu = Cpu::new(app.entry_point);
    if let Some(main) = app_main {
        cpu.regs.write(31, main);
        cpu.regs.write(25, app.entry_point);
    }
    cpu.regs.write(
        5,
        if app.load_base != STANDARD_APP_LOAD_BASE {
            1
        } else {
            0
        },
    );
    cpu.regs.write(29, INITIAL_STACK_POINTER);
    cpu
}

/// Fresh memory.
pub open spec fn fresh_memory() -> MemoryView {
    MemoryView {
        ram: Seq::new(crate::memory::RAM_SIZE as nat, |i: int| 0u8),
        framebuffer: Seq::new(FRAMEBUFFER_MAP_SIZE as nat, |i: int| 0u8),
    }
}

/// Where loading an executable fails, if it does: it is written at its own
/// address and at the physical one.
pub open spec fn load_obstacle(app: AppImage) -> Option<u32> {
    let length = app.executable@.len() as int;
    let physical = app.load_base & KSEG_MASK;
    if !bytes_accessible(app.load_base, length) {
        Some(app.load_base.wrapping_add(accessible_prefix(app.load_base, length) as u32))
    } else if physical != app.load_base && !bytes_accessible(physical, length) {
        Some(physical.wrapping_add(accessible_prefix(physical, length) as u32))
    } else {
        None
    }
}

/// Memory with an executable and a black framebuffer.
pub open spec fn loaded_memory(app: AppImage) -> MemoryView {
    let physical = app.load_base & KSEG_MASK;
    let once = put_bytes(fresh_memory(), app.load_base, app.executable@);
    let twice = if physical != app.load_base {
        put_bytes(once, physical, app.executable@)
    } else {
        once
    };
    put_bytes(
        twice,
        VM_LCD_FB_ADDRESS,
        Seq::new(
            accessible_prefix(VM_LCD_FB_ADDRESS, FRAMEBUFFER_SIZE as int) as nat,
            |i: int| 0u8,
        ),
    )
}

/// Memory with an application loaded.
pub fn load_memory(app: &AppImage) -> (result: Result<Memory, SimulatorError>)
    ensures
        match load_obstacle(*app) {
            Some(address) => result == Err::<Memory, SimulatorError>(
                SimulatorError::UnmappedAddress { address },
            ),
            None => result matches Ok(memory) && memory.wf() && memory@ == loaded_memory(*app)
                && memory.heap_next == crate::memory::HEAP_BASE,
        },
{
    let mut memory = Memory::new();
    assert(memory@ =~= fresh_memory());
    let executable = app.executable.as_slice();
    assert(executable@.take(executable@.len() as int) =~= executable@);
    match memory.load_data(app.load_base, executable) {
        Ok(_) => {},
        Err(error) => {
            return Err(error);
        },
    }
    let physical: u32 = app.load_base & KSEG_MASK;
    if physical != app.load_base {
        match memory.load_data(physical, executable) {
            Ok(_) => {},
            Err(error) => {
                return Err(error);
            },
        }
    }
    memory.memset(VM_LCD_FB_ADDRESS, 0, FRAMEBUFFER_SIZE as u32);
    Ok(memory)
}

/// The code of an application, with none of its instructions read yet.
pub fn fresh_code(app: &AppImage) -> (code: CodeCache)
    ensures
        code.wf(),
        code.hooks.names@ == import_hooks(app.imports@),
        code.app_main_entry == export_address(app.exports@, "AppMain"@, 0),
        code.app_main_init_check_address == match code.app_main_entry {
            Some(address) => Some(address.wrapping_add(INIT_CHECK_OFFSET)),
            None => None,
        },
        forall|i: int|
            0 <= i < crate::code_cache::INSTRUCTION_BLOCK_CACHE_SLOTS ==> (
            #[trigger] code.blocks@[i]).len == 0,
{
    let app_main = find_export(&app.exports, "AppMain");
    CodeCache {
        hooks: build_hooks(&app.imports),
        blocks: crate::code_cache::empty_instruction_block_cache(),
        app_main_entry: app_main,
        app_main_init_check_address: match app_main {
            Some(address) => Some(address.wrapping_add(INIT_CHECK_OFFSET)),
            None => None,
        },
    }
}

/// A scheduler with the main context only.
pub open spec fn no_tasks() -> SchedulerView {
    SchedulerView {
        tasks: Seq::empty(),
        scheduler_cursor: 0,
        main_wait: None,
        active_task: None,
        semaphores: Map::empty(),
        next_semaphore_handle: 1,
    }
}

impl Emulator {
    /// Every part is well-formed.
    pub open spec fn wf(&self) -> bool {
        &&& self.memory.wf()
        &&& self.video.wf()
        &&& self.scheduler.wf()
        &&& self.code.wf()
        &&& self.jit.wf()
        &&& self.unknown_hle.wf()
        &&& self.files.wf()
    }

    /// Whether this is a machine without an application, as it comes into being.
    pub open spec fn is_idle(&self, jit_backend: bool) -> bool {
        &&& self.wf()
        &&& self.app is None
        &&& self.app_path@.len() == 0
        &&& self.save_directory is None
        &&& self.frame_count == 0
        &&& self.cycle_count == 0
        &&& self.cpu.is_new(0x8000_0000)
        &&& self.memory@ == fresh_memory()
        &&& self.memory.heap_next == crate::memory::HEAP_BASE
        &&& self.code.app_main_entry is None
        &&& self.code.app_main_init_check_address is None
        &&& self.code.hooks.names@ == Map::<u32, String>::empty()
        &&& forall|i: int|
            0 <= i < crate::code_cache::INSTRUCTION_BLOCK_CACHE_SLOTS ==> (
            #[trigger] self.code.blocks@[i]).len == 0
        &&& self.scheduler@ == no_tasks()
        &&& self.input == no_input()
        &&& self.audio.is_new()
        &&& self.video.is_new()
        &&& self.gui.is_new()
        &&& self.files.files@ == Map::<u32, crate::files::OpenFile>::empty()
        &&& self.files.next_file_handle == 1
        &&& self.searches.searches@ == Map::<u32, crate::search::FileSearch>::empty()
        &&& self.locale_ansi_buffer is None
        &&& !self.app_main_args_initialized
        &&& !self.framebuffer_submitted
        &&& self.jit.is_new(jit_backend)
        &&& self.unknown_hle.policy == UnknownHlePolicy::Report
        &&& self.unknown_hle.allowlist@.len() == 0
        &&& self.unknown_hle.calls@.len() == 0
    }

    /// A machine without an application.
    pub fn idle(jit_backend: bool) -> (emulator: Emulator)
        ensures
            emulator.is_idle(jit_backend),
    {
        let memory = Memory::new();
        assert(memory@ =~= fresh_memory());
        Emulator {
            cpu: Cpu::new(0x8000_0000),
            memory,
            video: Video::new(),
            input: Input::new(),
            audio: Audio::new(),
            frame_count: 0,
            cycle_count: 0,
            scheduler: Scheduler::new(),
            app: None,
            code: CodeCache {
                hooks: HookTable::new(),
                blocks: crate::code_cache::empty_instruction_block_cache(),
                app_main_entry: None,
                app_main_init_check_address: None,
            },
            jit: JitEngine::new(jit_backend),
            unknown_hle: UnknownHleLog::new(),
            files: FileTable::new(),
            save_directory: None,
            searches: SearchTable::new(),
            gui: GuiState::new(),
            app_main_args_initialized: false,
            app_path: String::new(),
            locale_ansi_buffer: None,
            framebuffer_submitted: false,
        }
    }

    /// Whether this machine has just loaded an application.
    pub open spec fn freshly_loaded(&self, app: AppImage) -> bool {
        let main = export_address(app.exports@, "AppMain"@, 0);
        &&& self.wf()
        &&& self.memory@ == loaded_memory(app)
        &&& self.memory.heap_next == crate::memory::HEAP_BASE
        &&& self.cpu.regs.pc == app.entry_point
        &&& self.cpu.regs.file() == initial_registers(app)
        &&& self.cpu.is_fresh()
        &&& self.frame_count == 0
        &&& self.cycle_count == 0
        &&& self.input == no_input()
        &&& self.scheduler@ == no_tasks()
        &&& self.code.hooks.names@ == import_hooks(app.imports@)
        &&& self.code.app_main_entry == main
        &&& self.code.app_main_init_check_address == match main {
            Some(address) => Some(address.wrapping_add(INIT_CHECK_OFFSET)),
            None => None,
        }
        &&& forall|i: int|
            0 <= i < crate::code_cache::INSTRUCTION_BLOCK_CACHE_SLOTS ==> (
            #[trigger] self.code.blocks@[i]).len == 0
        &&& self.jit.is_new(self.jit.backend_available)
        &&& self.files.files@ == Map::<u32, crate::files::OpenFile>::empty()
        &&& self.files.next_file_handle == 1
        &&& self.searches.searches@ == Map::<u32, crate::search::FileSearch>::empty()
        &&& self.audio.is_new()
        &&& self.video.is_new()
        &&& self.gui.is_new()
        &&& !self.app_main_args_initialized
        &&& self.locale_ansi_buffer is None
        &&& !self.framebuffer_submitted
    }

    /// Loads an application. The files that it creates go beside it.
    pub fn from_app_with_path(
        app: AppImage,
        app_path: String,
        jit_backend: bool,
    ) -> (result: Result<Emulator, SimulatorError>)
        ensures
            match load_obstacle(app) {
                Some(address) => result == Err::<Emulator, SimulatorError>(
                    SimulatorError::UnmappedAddress { address },
                ),
                None => {
                    &&& result is Ok
                    &&& result->Ok_0.freshly_loaded(app)
                    &&& !result->Ok_0.cpu.running
                    &&& result->Ok_0.app == Some(app)
                    &&& result->Ok_0.app_path == app_path
                    &&& text_view(result->Ok_0.save_directory) == parent_of(app_path@)
                    &&& result->Ok_0.jit.backend_available == jit_backend
                    &&& result->Ok_0.unknown_hle.policy == UnknownHlePolicy::Report
                    &&& result->Ok_0.unknown_hle.allowlist@.len() == 0
                    &&& result->Ok_0.unknown_hle.calls@.len() == 0
                },
            },
    {
        let memory = match load_memory(&app) {
            Ok(memory) => memory,
            Err(error) => {
                return Err(error);
            },
        };
        let code = fresh_code(&app);
        let cpu = start_cpu(&app, code.app_main_entry);
        let mut emulator = Emulator::idle(jit_backend);
        emulator.cpu = cpu;
        emulator.memory = memory;
        emulator.code = code;
        emulator.app = Some(app);
        emulator.save_directory = parent_directory(app_path.as_str());
        emulator.app_path = app_path;
        Ok(emulator)
    }
}

impl Default for Emulator {
    /// A machine without an application on a host without native code.
    fn default() -> (emulator: Emulator)
        ensures
            emulator.is_idle(false),
    {
        Emulator::idle(false)
    }
}

/// Bytes that so many wide characters take, as a word.
fn byte_size(characters: usize) -> (size: u32)
    ensures
        size == (2 * characters) % 0x1_0000_0000,
{
    2 * ((characters % 0x8000_0000) as u32)
}

/// What preparing the main function's argument does: registers, memory, heap,
/// and the address that could not be written.
#[verifier::ext_equal]
pub struct MainArgs {
    pub regs: Seq<u32>,
    pub memory: MemoryView,
    pub heap_next: u32,
    pub error: Option<u32>,
}

/// The main function is given the application's file name in a new allocation. The
/// size of that is a word, whatever the length of the name.
pub open spec fn main_args(
    app_path: Seq<char>,
    entry: Option<u32>,
    regs: Seq<u32>,
    memory: MemoryView,
    heap_next: u32,
) -> MainArgs {
    let wide = utf16_encoded(app_file_name(app_path)).push(0);
    let size = ((2 * wide.len()) % 0x1_0000_0000) as u32;
    let pointer = allocation(heap_next, size);
    let written = half_prefix(pointer, wide.len() as int);
    let named = with_reg(regs, 4, pointer);
    if pointer == 0 {
        MainArgs { regs, memory, heap_next, error: None }
    } else if written < wide.len() {
        MainArgs {
            regs,
            memory: put_halves(memory, pointer, wide.take(written)),
            heap_next: heap_after(heap_next, size),
            error: Some(half_address(pointer, written)),
        }
    } else {
        MainArgs {
            regs: match entry {
                Some(entry) => with_reg(named, 25, entry),
                None => named,
            },
            memory: put_halves(memory, pointer, wide),
            heap_next: heap_after(heap_next, size),
            error: None,
        }
    }
}

/// Outcome of interpreting the instructions of a block.
#[verifier::ext_equal]
pub struct InterpretedRun {
    pub completed: int,
    pub state: CpuState,
    pub memory: MemoryView,
    pub error: Option<SimulatorError>,
}

/// Interprets a block from instruction number `index` on: up to its end, the
/// limit, a transfer of control or an error.
pub open spec fn interpreted_run(
    state: CpuState,
    memory: MemoryView,
    code: Seq<u32>,
    index: int,
    limit: int,
    policy: UnknownInstructionPolicy,
) -> InterpretedRun
    decreases code.len() - index,
{
    if index < 0 || index >= code.len() || index >= limit {
        InterpretedRun { completed: index, state, memory, error: None }
    } else {
        match interpret(state, memory, code[index], policy) {
            Interpreted::Done(after, contents) => if after.pc != state.pc.wrapping_add(4) {
                InterpretedRun {
                    completed: index + 1,
                    state: after,
                    memory: contents,
                    error: None,
                }
            } else {
                interpreted_run(after, contents, code, index + 1, limit, policy)
            },
            Interpreted::Unmapped(address) => InterpretedRun {
                completed: index,
                state,
                memory,
                error: Some(SimulatorError::UnmappedAddress { address }),
            },
            Interpreted::Unknown => InterpretedRun {
                completed: index,
                state,
                memory,
                error: Some(SimulatorError::UnknownInstruction { instruction: code[index] }),
            },
        }
    }
}

/// Interprets a block of instructions.
fn run_instructions(
    cpu: &mut Cpu,
    memory: &mut Memory,
    instructions: &[u32],
    limit: usize,
) -> (result: (u64, Option<SimulatorError>))
    requires
        old(memory).wf(),
        old(cpu).running,
        instructions@.len() <= 64,
    ensures
        final(memory).wf(),
        final(memory).heap_next == old(memory).heap_next,
        final(cpu).same_control(old(cpu)),
        ({
            let run = interpreted_run(
                old(cpu).state(),
                old(memory)@,
                instructions@,
                0,
                limit as int,
                old(cpu).unknown_instruction_policy,
            );
            &&& result.0 == run.completed
            &&& result.1 == run.error
            &&& final(cpu).state() == run.state
            &&& final(memory)@ == run.memory
            &&& run.completed <= limit
            &&& run.completed <= instructions@.len()
        }),
{
    let mut index: usize = 0;
    while index < instructions.len() && index < limit
        invariant
            index <= instructions@.len() <= 64,
            index <= limit,
            memory.wf(),
            memory.heap_next == old(memory).heap_next,
            cpu.running,
            cpu.same_control(old(cpu)),
            interpreted_run(
                old(cpu).state(),
                old(memory)@,
                instructions@,
                0,
                limit as int,
                old(cpu).unknown_instruction_policy,
            ) == interpreted_run(
                cpu.state(),
                memory@,
                instructions@,
                index as int,
                limit as int,
                cpu.unknown_instruction_policy,
            ),
        decreases instructions@.len() - index,
    {
        let pc: u32 = cpu.regs.pc;
        match cpu.step_fetched_unaccounted(instructions[index], memory) {
            Ok(_) => {},
            Err(error) => {
                return (index as u64, Some(error));
            },
        }
        index = index + 1;
        if cpu.regs.pc != pc.wrapping_add(4) {
            return (index as u64, None);
        }
    }
    (index as u64, None)
}

/// A slice of a frame: how much of it ran, and the main context while a task's
/// context is installed.
#[derive(Clone, Copy, Debug)]
pub struct Slice {
    pub executed: u64,
    pub cycles: u64,
    pub context_count: usize,
    pub parked: Option<Cpu>,
}

/// A frame in progress.
#[derive(Clone, Copy, Debug)]
pub struct Tick {
    pub start_cycle: u64,
    pub remaining_cycles: u64,
    pub idle_contexts: usize,
    pub slice: Option<Slice>,
}

/// What comes next in a slice.
#[derive(Clone, Copy, Debug, PartialEq, Eq, Structural)]
pub enum SliceStep {
    /// Nothing: the slice is over.
    End,
    /// The function hooked at this address is called.
    Hook(u32),
    /// Instructions at this address run, at most so many.
    Block(u32, usize),
}

impl Tick {
    /// Cycles of the frame that have passed.
    pub open spec fn passed(&self) -> int {
        CYCLES_PER_FRAME - self.remaining_cycles + match self.slice {
            Some(slice) => slice.executed as int,
            None => 0,
        }
    }

    /// Cycles are used in pairs, a slice does not run over, and it lies in the frame.
    pub open spec fn wf(&self) -> bool {
        &&& self.remaining_cycles <= CYCLES_PER_FRAME
        &&& self.remaining_cycles % 2 == 0
        &&& self.slice matches Some(slice) ==> {
            &&& slice.executed <= slice.cycles <= self.remaining_cycles
            &&& slice.executed % 2 == 0
            &&& slice.cycles % 2 == 0
            &&& slice.cycles > 0
            &&& 1 <= slice.context_count <= crate::tasks::MAX_GUEST_TASKS + 1
        }
    }
}

/// The smaller of two cycle counts.
pub open spec fn fewer(left: u64, right: u64) -> u64 {
    if left <= right {
        left
    } else {
        right
    }
}

impl Emulator {
    /// Whether the cycles that passed in a frame are the ones that were counted,
    /// and the running context is the one that the slice is for.
    pub open spec fn in_tick(&self, tick: &Tick) -> bool {
        &&& self.wf()
        &&& tick.wf()
        &&& self.cycle_count == tick.start_cycle.wrapping_add(tick.passed() as u64)
        &&& match tick.slice {
            Some(slice) => slice.parked is Some <==> self.scheduler.active_task is Some,
            None => self.scheduler.active_task is None,
        }
    }

    /// Lets the main context run.
    pub fn start(&mut self)
        requires
            old(self).wf(),
        ensures
            final(self).wf(),
            *final(self) == (Emulator {
                cpu: Cpu { running: true, ..old(self).cpu },
                ..*old(self)
            }),
    {
        self.cpu.start();
    }

    /// Halts the main context. The host saves files first.
    pub fn stop(&mut self)
        requires
            old(self).wf(),
        ensures
            final(self).wf(),
            *final(self) == (Emulator {
                cpu: Cpu { running: false, ..old(self).cpu },
                ..*old(self)
            }),
    {
        self.cpu.stop();
    }

    /// Whether the running context runs.
    pub fn is_running(&self) -> (running: bool)
        ensures
            running == self.cpu.running,
    {
        self.cpu.is_running()
    }

    /// Frames so far.
    pub fn frame_count(&self) -> (count: u64)
        ensures
            count == self.frame_count,
    {
        self.frame_count
    }

    /// Sets the buttons that are held.
    pub fn set_buttons(&mut self, buttons: u32)
        requires
            old(self).wf(),
        ensures
            final(self).wf(),
            *final(self) == (Emulator {
                input: old(self).input.holding(buttons),
                ..*old(self)
            }),
    {
        self.input.set_buttons(buttons);
    }

    /// Sets the host directory for files that the guest creates. The host saves files first.
    pub fn set_save_directory(&mut self, directory: String)
        requires
            old(self).wf(),
        ensures
            final(self).wf(),
            *final(self) == (Emulator { save_directory: Some(directory), ..*old(self) }),
    {
        self.save_directory = Some(directory);
    }

    /// Frequency of the samples that the frontend receives.
    pub fn audio_sample_rate(&self) -> (rate: u32)
        ensures
            rate == crate::audio::OUTPUT_SAMPLE_RATE,
    {
        crate::audio::OUTPUT_SAMPLE_RATE
    }

    /// Whether all that changed is that no instructions are cached any more, read or
    /// compiled.
    pub open spec fn instructions_forgotten(&self, before: &Emulator) -> bool {
        &&& forall|i: int|
            0 <= i < crate::code_cache::INSTRUCTION_BLOCK_CACHE_SLOTS ==> (
            #[trigger] self.code.blocks@[i]).len == 0
        &&& emptied(before.jit, self.jit)
        &&& self.code == (CodeCache { blocks: self.code.blocks, ..before.code })
        &&& *self == (Emulator { code: self.code, jit: self.jit, ..*before })
    }

    /// Forgets cached code. Returns whether the host is to replace its backend.
    pub fn clear_instruction_cache(&mut self) -> (replace_backend: bool)
        requires
            old(self).wf(),
        ensures
            final(self).wf(),
            replace_backend == (old(self).jit.compiled_block_count != 0
                && old(self).jit.backend_available),
            final(self).instructions_forgotten(old(self)),
    {
        self.code.clear_blocks();
        self.jit.clear()
    }

    /// Rebuilds the machine from its application. The host saves files first, and
    /// replaces its backend.
    pub fn reset(&mut self) -> (result: Result<(), SimulatorError>)
        requires
            old(self).wf(),
        ensures
            final(self).wf(),
            match old(self).app {
                None => {
                    &&& result == Err::<(), SimulatorError>(SimulatorError::NoApplication)
                    &&& *final(self) == *old(self)
                },
                Some(app) => match load_obstacle(app) {
                    Some(address) => {
                        &&& result == Err::<(), SimulatorError>(
                            SimulatorError::UnmappedAddress { address },
                        )
                        &&& *final(self) == *old(self)
                    },
                    None => {
                        &&& result is Ok
                        &&& final(self).freshly_loaded(app)
                        &&& final(self).cpu.running == old(self).cpu.running
                        &&& final(self).app == Some(app)
                        &&& final(self).app_path == old(self).app_path
                        &&& final(self).save_directory == old(self).save_directory
                        &&& final(self).jit.backend_available == old(self).jit.backend_available
                        &&& final(self).unknown_hle.policy == old(self).unknown_hle.policy
                        &&& final(self).unknown_hle.allowlist == old(self).unknown_hle.allowlist
                        &&& final(self).unknown_hle.calls@.len() == 0
                    },
                },
            },
    {
        let app = match self.app.take() {
            Some(app) => app,
            None => {
                return Err(SimulatorError::NoApplication);
            },
        };
        let memory = match load_memory(&app) {
            Ok(memory) => memory,
            Err(error) => {
                self.app = Some(app);
                return Err(error);
            },
        };
        let was_running: bool = self.is_running();
        let backend: bool = self.jit.backend_available;
        let code = fresh_code(&app);
        let mut cpu = start_cpu(&app, code.app_main_entry);
        if was_running {
            cpu.start();
        }
        self.cpu = cpu;
        self.memory.copy_state_from(&memory);
        self.video = Video::new();
        self.input = Input::new();
        self.audio = Audio::new();
        self.frame_count = 0;
        self.cycle_count = 0;
        self.scheduler = Scheduler::new();
        self.code = code;
        self.jit = JitEngine::new(backend);
        self.unknown_hle.clear_unknown_hle_calls();
        self.files = FileTable::new();
        self.searches = SearchTable::new();
        self.gui = GuiState::new();
        self.app_main_args_initialized = false;
        self.locale_ansi_buffer = None;
        self.framebuffer_submitted = false;
        self.app = Some(app);
        Ok(())
    }

    /// What the application's main function is given: its file name, in a new allocation.
    pub fn install_app_main_args(&mut self) -> (result: Result<(), SimulatorError>)
        requires
            old(self).wf(),
        ensures
            final(self).wf(),
            final(self).app_main_args_initialized,
            *final(self) == (Emulator {
                cpu: final(self).cpu,
                memory: final(self).memory,
                app_main_args_initialized: true,
                ..*old(self)
            }),
            ({
                let effect = main_args(
                    old(self).app_path@,
                    old(self).code.app_main_entry,
                    old(self).cpu.regs.file(),
                    old(self).memory@,
                    old(self).memory.heap_next,
                );
                if old(self).app_main_args_initialized {
                    &&& result is Ok
                    &&& final(self).cpu == old(self).cpu
                    &&& final(self).memory == old(self).memory
                } else {
                    &&& final(self).cpu.same_control(&old(self).cpu)
                    &&& final(self).cpu.state() == (CpuState {
                        regs: effect.regs,
                        ..old(self).cpu.state()
                    })
                    &&& final(self).memory@ == effect.memory
                    &&& final(self).memory.heap_next == effect.heap_next
                    &&& match effect.error {
                        Some(address) => result == Err::<(), SimulatorError>(
                            SimulatorError::UnmappedAddress { address },
                        ),
                        None => result is Ok,
                    }
                }
            }),
    {
        if self.app_main_args_initialized {
            return Ok(());
        }
        self.app_main_args_initialized = true;
        let name = file_name_of(self.app_path.as_str());
        let mut wide: Vec<u16> = encode_utf16(name.as_str());
        wide.push(0);
        let size: u32 = byte_size(wide.len());
        let pointer: u32 = self.memory.malloc(size);
        if pointer == 0 {
            return Ok(());
        }
        assert(wide@.take(wide@.len() as int) =~= wide@);
        match self.memory.load_halves(pointer, wide.as_slice()) {
            Ok(_) => {},
            Err(error) => {
                return Err(error);
            },
        }
        self.cpu.regs.write(4, pointer);
        if let Some(entry) = self.code.app_main_entry {
            self.cpu.regs.write(25, entry);
        }
        Ok(())
    }
}

/// The scheduler with the context at the cursor installed.
pub open spec fn context_installed(state: SchedulerView) -> SchedulerView {
    let count = state.tasks.len() + 1;
    let cursor = if state.scheduler_cursor >= count {
        0usize
    } else {
        state.scheduler_cursor
    };
    SchedulerView {
        scheduler_cursor: cursor,
        active_task: if cursor == 0 {
            None
        } else {
            Some((cursor - 1) as usize)
        },
        ..state
    }
}

/// The scheduler when the running context, with this processor, is left: a task
/// keeps it, and the main context is the one that runs.
pub open spec fn context_left(state: SchedulerView, cpu: Cpu) -> SchedulerView {
    match state.active_task {
        Some(index) => SchedulerView {
            active_task: None,
            tasks: state.tasks.update(
                index as int,
                GuestTask { cpu, ..state.tasks[index as int] },
            ),
            ..state
        },
        None => state,
    }
}

/// Whether a context goes on behind a call: unless it waits now, is halted, or a picture
/// was submitted.
pub open spec fn hook_finished(
    machine: Emulator,
    machine_after: Emulator,
    goes_on: bool,
) -> bool {
    let state = machine.scheduler@;
    let over = match state.active_wait() {
        Some(wait) => wait_is_over(
            wait,
            machine_after.cycle_count,
            machine.audio.accepts(),
        ),
        None => true,
    };
    &&& goes_on == (!machine.framebuffer_submitted && over && machine.cpu.running)
    &&& machine_after.scheduler@ == if over && !machine.framebuffer_submitted {
        state.with_active_wait(None)
    } else {
        state
    }
}

/// What the beginning of a slice does: whose turn it is, and how long it lasts.
pub open spec fn slice_begun(
    machine: Emulator,
    machine_after: Emulator,
    tick: Tick,
    tick_after: Tick,
    runs: bool,
) -> bool {
    let before = machine.scheduler@;
    let installed = context_installed(before);
    let state = machine_after.scheduler@;
    let index = installed.active_task;
    let wait = installed.active_wait();
    let over = match wait {
        Some(wait) => wait_is_over(
            wait,
            machine.cycle_count,
            machine.audio.accepts(),
        ),
        None => true,
    };
    &&& tick_after.slice == Some(
        Slice {
            executed: 0,
            cycles: fewer(tick.remaining_cycles, TASK_QUANTUM_CYCLES),
            context_count: (before.tasks.len() + 1) as usize,
            parked: if index is Some {
                Some(machine.cpu)
            } else {
                None
            },
        },
    )
    &&& tick_after == (Tick { slice: tick_after.slice, ..tick })
    &&& machine_after.cpu == match index {
        Some(index) => before.tasks[index as int].cpu,
        None => machine.cpu,
    }
    &&& runs == (over && machine_after.cpu.running)
    &&& state.scheduler_cursor == installed.scheduler_cursor
    &&& state.active_task == index
    &&& state.active_wait() == if over {
        None
    } else {
        wait
    }
    &&& state.tasks.len() == before.tasks.len()
    &&& forall|i: int|
        0 <= i < before.tasks.len() && index != Some(i as usize)
            ==> #[trigger] state.tasks[i] == before.tasks[i]
    &&& index matches Some(index) ==> {
        &&& state.tasks[index as int].cpu.is_new(0)
        &&& state.tasks[index as int].priority == before.tasks[index as int].priority
        &&& state.main_wait == before.main_wait
    }
    &&& state.semaphores == before.semaphores
    &&& state.next_semaphore_handle == before.next_semaphore_handle
}

/// What comes next in a slice, and what is prepared for it.
pub open spec fn step_chosen(
    machine: Emulator,
    machine_after: Emulator,
    tick: Tick,
    result: Result<SliceStep, SimulatorError>,
) -> bool {
    let slice = tick.slice->0;
    let pc = machine.cpu.regs.pc;
    let main = machine.scheduler.active_task is None;
    let installs = main && Some(pc) == machine.code.app_main_entry
        && !machine.app_main_args_initialized;
    let checks = main && Some(pc) == machine.code.app_main_init_check_address;
    if slice.executed >= slice.cycles {
        &&& result == Ok::<SliceStep, SimulatorError>(SliceStep::End)
        &&& machine_after == machine
    } else if pc == TASK_RETURN_ADDRESS {
        &&& result == Ok::<SliceStep, SimulatorError>(SliceStep::End)
        &&& machine_after == (Emulator {
            cpu: Cpu { running: false, ..machine.cpu },
            ..machine
        })
    } else {
        let prepared = if installs {
            main_args(
                machine.app_path@,
                machine.code.app_main_entry,
                machine.cpu.regs.file(),
                machine.memory@,
                machine.memory.heap_next,
            )
        } else {
            MainArgs {
                regs: machine.cpu.regs.file(),
                memory: machine.memory@,
                heap_next: machine.memory.heap_next,
                error: None,
            }
        };
        &&& machine_after == (Emulator {
            cpu: machine_after.cpu,
            memory: machine_after.memory,
            app_main_args_initialized: machine.app_main_args_initialized || installs,
            ..machine
        })
        &&& machine_after.cpu.same_control(&machine.cpu)
        &&& machine_after.memory@ == prepared.memory
        &&& machine_after.memory.heap_next == prepared.heap_next
        &&& machine_after.cpu.state() == (CpuState {
            regs: if checks && prepared.error is None {
                with_reg(prepared.regs, 2, 1)
            } else {
                prepared.regs
            },
            ..machine.cpu.state()
        })
        &&& match prepared.error {
            Some(address) => result == Err::<SliceStep, SimulatorError>(
                SimulatorError::UnmappedAddress { address },
            ),
            None => result == Ok::<SliceStep, SimulatorError>(
                if machine.code.hooks.names@.contains_key(pc) {
                    SliceStep::Hook(pc)
                } else {
                    SliceStep::Block(
                        pc,
                        ((slice.cycles - slice.executed)
                            / CPU_CYCLES_PER_INSTRUCTION as int) as usize,
                    )
                },
            ),
        }
    }
}

/// What the end of a slice does: to the time of the frame, to whose turn it is, and to the
/// contexts.
pub open spec fn slice_ended(
    machine: Emulator,
    machine_after: Emulator,
    tick: Tick,
    tick_after: Tick,
) -> bool {
    let slice = tick.slice->0;
    let before = machine.scheduler@;
    let state = machine_after.scheduler@;
    let idle = tick.idle_contexts as int + 1;
    let rest = tick.remaining_cycles;
    let left = if slice.executed != 0 {
        (rest - slice.executed) as u64
    } else if idle >= slice.context_count {
        (rest - slice.cycles) as u64
    } else {
        rest
    };
    &&& tick_after.remaining_cycles == if machine.framebuffer_submitted {
        0
    } else {
        left
    }
    &&& tick_after.idle_contexts == if slice.executed != 0 || idle
        >= slice.context_count {
        0usize
    } else {
        idle as usize
    }
    &&& tick_after.start_cycle == tick.start_cycle
    &&& state.scheduler_cursor == if before.scheduler_cursor + 1
        == slice.context_count {
        0usize
    } else {
        (before.scheduler_cursor + 1) as usize
    }
    &&& state == (SchedulerView {
        scheduler_cursor: state.scheduler_cursor,
        ..context_left(before, machine.cpu)
    })
    &&& machine_after.cpu == match slice.parked {
        Some(main) => main,
        None => machine.cpu,
    }
}

impl Emulator {
    /// Starts a frame.
    pub fn begin_tick(&mut self) -> (tick: Tick)
        requires
            old(self).wf(),
        ensures
            final(self).in_tick(&tick),
            tick == (Tick {
                start_cycle: old(self).cycle_count,
                remaining_cycles: CYCLES_PER_FRAME,
                idle_contexts: 0,
                slice: None,
            }),
            final(self).jit == frame_begun(old(self).jit),
            final(self).scheduler@ == (SchedulerView {
                active_task: None,
                ..old(self).scheduler@
            }),
            *final(self) == (Emulator {
                jit: final(self).jit,
                scheduler: final(self).scheduler,
                framebuffer_submitted: false,
                ..*old(self)
            }),
    {
        self.jit.begin_frame();
        self.framebuffer_submitted = false;
        self.scheduler.active_task = None;
        Tick {
            start_cycle: self.cycle_count,
            remaining_cycles: CYCLES_PER_FRAME,
            idle_contexts: 0,
            slice: None,
        }
    }

    /// Whether the running context can run: it waits for nothing and is not halted.
    fn can_run(&mut self) -> (runs: bool)
        requires
            old(self).wf(),
        ensures
            final(self).wf(),
            *final(self) == (Emulator { scheduler: final(self).scheduler, ..*old(self) }),
            ({
                let state = old(self).scheduler@;
                let over = match state.active_wait() {
                    Some(wait) => wait_is_over(
                        wait,
                        old(self).cycle_count,
                        old(self).audio.accepts(),
                    ),
                    None => true,
                };
                &&& runs == (over && old(self).cpu.running)
                &&& final(self).scheduler@ == if over {
                    state.with_active_wait(None)
                } else {
                    state
                }
            }),
    {
        let ready: bool = self.audio.can_write();
        let ghost state = self.scheduler@;
        let waiting: bool = self.scheduler.active_context_waiting(self.cycle_count, ready);
        proof {
            if state.active_wait() is None {
                lemma_no_wait(state);
            }
        }
        !waiting && self.cpu.is_running()
    }

    /// Starts the slice of the next context. Returns whether it can run.
    pub fn begin_slice(&mut self, tick: &mut Tick) -> (runs: bool)
        requires
            old(self).in_tick(old(tick)),
            old(tick).slice is None,
            old(tick).remaining_cycles > 0,
        ensures
            final(self).in_tick(final(tick)),
            slice_begun(*old(self), *final(self), *old(tick), *final(tick), runs),
            *final(self) == (Emulator {
                cpu: final(self).cpu,
                scheduler: final(self).scheduler,
                ..*old(self)
            }),
    {
        let context_count: usize = self.scheduler.tasks.len() + 1;
        if self.scheduler.scheduler_cursor >= context_count {
            self.scheduler.scheduler_cursor = 0;
        }
        let cycles: u64 = if tick.remaining_cycles <= TASK_QUANTUM_CYCLES {
            tick.remaining_cycles
        } else {
            TASK_QUANTUM_CYCLES
        };
        let cursor: usize = self.scheduler.scheduler_cursor;
        let parked: Option<Cpu> = if cursor == 0 {
            self.scheduler.active_task = None;
            None
        } else {
            let index: usize = cursor - 1;
            let mut task = self.scheduler.tasks[index];
            let main = self.cpu;
            self.cpu = task.cpu;
            task.cpu = Cpu::new(0);
            self.scheduler.tasks.set(index, task);
            self.scheduler.active_task = Some(index);
            Some(main)
        };
        tick.slice = Some(Slice { executed: 0, cycles, context_count, parked });
        self.can_run()
    }

    /// Says what comes next in a slice.
    pub fn next_in_slice(&mut self, tick: &Tick) -> (result: Result<SliceStep, SimulatorError>)
        requires
            old(self).in_tick(tick),
            tick.slice is Some,
        ensures
            final(self).in_tick(tick),
            step_chosen(*old(self), *final(self), *tick, result),
    {
        let slice = match tick.slice {
            Some(slice) => slice,
            None => {
                return Ok(SliceStep::End);
            },
        };
        if slice.executed >= slice.cycles {
            return Ok(SliceStep::End);
        }
        let pc: u32 = self.cpu.regs.pc;
        if pc == TASK_RETURN_ADDRESS {
            self.cpu.stop();
            return Ok(SliceStep::End);
        }
        if self.scheduler.active_task.is_none() {
            if let Some(entry) = self.code.app_main_entry {
                if entry == pc && !self.app_main_args_initialized {
                    match self.install_app_main_args() {
                        Ok(_) => {},
                        Err(error) => {
                            return Err(error);
                        },
                    }
                }
            }
            if let Some(check) = self.code.app_main_init_check_address {
                if check == pc {
                    self.cpu.regs.write(2, 1);
                }
            }
        }
        if self.code.hooks.hook_at(pc).is_some() {
            return Ok(SliceStep::Hook(pc));
        }
        let limit: u64 = (slice.cycles - slice.executed) / CPU_CYCLES_PER_INSTRUCTION;
        Ok(SliceStep::Block(pc, limit as usize))
    }

    /// Counts a call of a hooked function. Returns whether the slice goes on.
    pub fn finish_hook(&mut self, tick: &mut Tick) -> (goes_on: bool)
        requires
            old(self).in_tick(old(tick)),
            old(tick).slice is Some,
            old(tick).slice->0.executed < old(tick).slice->0.cycles,
        ensures
            final(self).in_tick(final(tick)),
            final(tick).slice is Some,
            final(tick).slice->0 == (Slice {
                executed: (old(tick).slice->0.executed + CPU_CYCLES_PER_INSTRUCTION) as u64,
                ..old(tick).slice->0
            }),
            *final(tick) == (Tick { slice: final(tick).slice, ..*old(tick) }),
            final(self).cycle_count == old(self).cycle_count.wrapping_add(
                CPU_CYCLES_PER_INSTRUCTION,
            ),
            hook_finished(*old(self), *final(self), goes_on),
            *final(self) == (Emulator {
                cycle_count: final(self).cycle_count,
                scheduler: final(self).scheduler,
                ..*old(self)
            }),
    {
        let ghost passed = tick.passed();
        self.cycle_count = self.cycle_count.wrapping_add(CPU_CYCLES_PER_INSTRUCTION);
        if let Some(slice) = tick.slice {
            tick.slice = Some(
                Slice {
                    executed: slice.executed + CPU_CYCLES_PER_INSTRUCTION,
                    cycles: slice.cycles,
                    context_count: slice.context_count,
                    parked: slice.parked,
                },
            );
        }
        if self.framebuffer_submitted {
            return false;
        }
        self.can_run()
    }

    /// Counts completed instructions of a slice.
    pub fn finish_block(&mut self, tick: &mut Tick, completed: u64)
        requires
            old(self).in_tick(old(tick)),
            old(tick).slice is Some,
            old(tick).slice->0.executed + completed * CPU_CYCLES_PER_INSTRUCTION <= old(
                tick,
            ).slice->0.cycles,
        ensures
            final(self).in_tick(final(tick)),
            final(tick).slice is Some,
            final(tick).slice->0 == (Slice {
                executed: (old(tick).slice->0.executed + completed * CPU_CYCLES_PER_INSTRUCTION)
                    as u64,
                ..old(tick).slice->0
            }),
            *final(tick) == (Tick { slice: final(tick).slice, ..*old(tick) }),
            final(self).cycle_count == old(self).cycle_count.wrapping_add(
                (completed * CPU_CYCLES_PER_INSTRUCTION) as u64,
            ),
            *final(self) == (Emulator { cycle_count: final(self).cycle_count, ..*old(self) }),
    {
        if let Some(slice) = tick.slice {
            let cycles: u64 = completed * CPU_CYCLES_PER_INSTRUCTION;
            self.cycle_count = self.cycle_count.wrapping_add(cycles);
            tick.slice = Some(
                Slice {
                    executed: slice.executed + cycles,
                    cycles: slice.cycles,
                    context_count: slice.context_count,
                    parked: slice.parked,
                },
            );
        }
    }

    fn restore_context(&mut self, slice: &Slice)
        requires
            old(self).wf(),
            slice.parked is Some <==> old(self).scheduler.active_task is Some,
        ensures
            final(self).wf(),
            final(self).scheduler.active_task is None,
            final(self).scheduler@ == context_left(old(self).scheduler@, old(self).cpu),
            final(self).cpu == match slice.parked {
                Some(main) => main,
                None => old(self).cpu,
            },
            *final(self) == (Emulator {
                cpu: final(self).cpu,
                scheduler: final(self).scheduler,
                ..*old(self)
            }),
    {
        if let Some(index) = self.scheduler.active_task {
            if let Some(main) = slice.parked {
                let mut task = self.scheduler.tasks[index];
                task.cpu = self.cpu;
                self.scheduler.tasks.set(index, task);
                self.cpu = main;
            }
            self.scheduler.active_task = None;
        }
    }

    /// Ends a slice. A round of contexts none of which ran lets the time of a
    /// slice pass, and a submitted picture the rest of the frame.
    pub fn end_slice(&mut self, tick: &mut Tick)
        requires
            old(self).in_tick(old(tick)),
            old(tick).slice is Some,
            old(self).scheduler.scheduler_cursor < old(tick).slice->0.context_count,
        ensures
            final(self).in_tick(final(tick)),
            final(tick).slice is None,
            slice_ended(*old(self), *final(self), *old(tick), *final(tick)),
            *final(self) == (Emulator {
                cpu: final(self).cpu,
                scheduler: final(self).scheduler,
                cycle_count: final(self).cycle_count,
                ..*old(self)
            }),
    {
        let slice = match tick.slice {
            Some(slice) => slice,
            None => {
                return ;
            },
        };
        self.restore_context(&slice);
        let next: usize = self.scheduler.scheduler_cursor + 1;
        self.scheduler.scheduler_cursor = if next == slice.context_count {
            0
        } else {
            next
        };
        if slice.executed == 0 {
            let next_idle: usize = if tick.idle_contexts >= slice.context_count {
                slice.context_count
            } else {
                tick.idle_contexts + 1
            };
            if next_idle >= slice.context_count {
                self.cycle_count = self.cycle_count.wrapping_add(slice.cycles);
                tick.remaining_cycles = tick.remaining_cycles - slice.cycles;
                tick.idle_contexts = 0;
            } else {
                tick.idle_contexts = next_idle;
            }
        } else {
            tick.remaining_cycles = tick.remaining_cycles - slice.executed;
            tick.idle_contexts = 0;
        }
        tick.slice = None;
        if self.framebuffer_submitted {
            self.cycle_count = self.cycle_count.wrapping_add(tick.remaining_cycles);
            tick.remaining_cycles = 0;
        }
    }

    /// Gives up a slice in which an error came up.
    pub fn abort_slice(&mut self, tick: &mut Tick)
        requires
            old(self).wf(),
            old(tick).slice is Some,
            old(tick).slice->0.parked is Some <==> old(self).scheduler.active_task is Some,
        ensures
            final(self).wf(),
            *final(tick) == (Tick { slice: None, ..*old(tick) }),
            final(self).scheduler@ == context_left(old(self).scheduler@, old(self).cpu),
            final(self).cpu == match old(tick).slice->0.parked {
                Some(main) => main,
                None => old(self).cpu,
            },
            *final(self) == (Emulator {
                cpu: final(self).cpu,
                scheduler: final(self).scheduler,
                ..*old(self)
            }),
    {
        if let Some(slice) = tick.slice {
            self.restore_context(&slice);
        }
        tick.slice = None;
    }

    /// Copies the guest's framebuffer to the picture.
    pub fn sync_framebuffer(&mut self)
        requires
            old(self).wf(),
        ensures
            final(self).wf(),
            final(self).framebuffer_submitted,
            final(self).video.framebuffer@ == old(self).memory@.framebuffer.take(
                FRAMEBUFFER_SIZE as int,
            ),
            final(self).video.frame == old(self).video.frame,
            *final(self) == (Emulator {
                video: final(self).video,
                framebuffer_submitted: true,
                ..*old(self)
            }),
    {
        self.framebuffer_submitted = true;
        let mut picture: Vec<u8> = Vec::new();
        picture.extend_from_slice(
            vstd::slice::slice_subrange(self.memory.framebuffer(), 0, FRAMEBUFFER_SIZE),
        );
        assert(picture@ =~= self.memory@.framebuffer.take(FRAMEBUFFER_SIZE as int));
        self.video.framebuffer = picture;
    }

    /// Ends a frame: halted tasks are dropped, and a picture that the guest did
    /// not submit is taken from its framebuffer.
    pub fn end_tick(&mut self, tick: &Tick)
        requires
            old(self).in_tick(tick),
            tick.slice is None,
            tick.remaining_cycles == 0,
        ensures
            final(self).wf(),
            final(self).cycle_count == tick.start_cycle.wrapping_add(CYCLES_PER_FRAME),
            final(self).frame_count == old(self).frame_count.wrapping_add(1),
            final(self).framebuffer_submitted,
            final(self).scheduler@ == (SchedulerView {
                tasks: running_tasks(old(self).scheduler@.tasks),
                ..old(self).scheduler@
            }),
            final(self).video.frame == old(self).video.frame.wrapping_add(1),
            final(self).video.framebuffer@ == if old(self).framebuffer_submitted {
                old(self).video.framebuffer@
            } else {
                old(self).memory@.framebuffer.take(FRAMEBUFFER_SIZE as int)
            },
            *final(self) == (Emulator {
                scheduler: final(self).scheduler,
                video: final(self).video,
                frame_count: final(self).frame_count,
                framebuffer_submitted: true,
                ..*old(self)
            }),
    {
        self.scheduler.retain_running();
        if !self.framebuffer_submitted {
            self.sync_framebuffer();
        }
        self.video.frame = self.video.frame.wrapping_add(1);
        self.frame_count = self.frame_count.wrapping_add(1);
    }
}

proof fn lemma_no_wait(state: SchedulerView)
    requires
        state.wf(),
        state.active_wait() is None,
    ensures
        state.with_active_wait(None) == state,
{
    match state.active_task {
        Some(index) => {
            assert(state.tasks.update(
                index as int,
                GuestTask { wait: None, ..state.tasks[index as int] },
            ) =~= state.tasks);
        },
        None => {},
    }
}

impl Emulator {
    /// Makes sure that the block at an address is cached, and says how to run it.
    /// In a delay slot it is interpreted.
    pub fn plan_block(&mut self, start: u32, limit: usize) -> (result: Result<
        JitAction,
        SimulatorError,
    >)
        requires
            old(self).wf(),
        ensures
            final(self).wf(),
            *final(self) == (Emulator {
                code: CodeCache { blocks: final(self).code.blocks, ..old(self).code },
                jit: final(self).jit,
                ..*old(self)
            }),
            ({
                let count = old(self).code.block_end(start, 0);
                let available = CodeCache::fetchable(old(self).memory@, start, count);
                let block = final(self).code.blocks@[block_slot(start)];
                if !old(self).code.holds(start) && available < count {
                    &&& result == Err::<JitAction, SimulatorError>(
                        SimulatorError::UnmappedAddress {
                            address: crate::code_cache::address_at(start, available),
                        },
                    )
                    &&& final(self).jit == old(self).jit
                    &&& final(self).code.blocks@ == old(self).code.blocks@
                } else {
                    &&& final(self).code.holds(start)
                    &&& final(self).code.blocks@ == old(self).code.blocks@.update(
                        block_slot(start),
                        block,
                    )
                    &&& old(self).code.holds(start) ==> block == old(
                        self,
                    ).code.blocks@[block_slot(start)]
                    &&& !old(self).code.holds(start) ==> block.code() == CodeCache::fetched(
                        old(self).memory@,
                        start,
                        count as nat,
                    )
                    &&& result == Ok::<JitAction, SimulatorError>(
                        if old(self).cpu.branch_delay {
                            JitAction::Interpret
                        } else {
                            action_for(old(self).jit.decision(start, block.code(), limit))
                        },
                    )
                    &&& if old(self).cpu.branch_delay {
                        final(self).jit == old(self).jit
                    } else {
                        requested(old(self).jit, final(self).jit, start, block.code(), limit)
                    }
                }
            }),
    {
        let ghost blocks = self.code.blocks@;
        match self.code.ensure_instruction_block(&self.memory, start) {
            Ok(_) => {},
            Err(error) => {
                return Err(error);
            },
        }
        let slot: usize = crate::code_cache::instruction_block_cache_index(start);
        assert(self.code.blocks@ =~= blocks.update(slot as int, self.code.blocks@[slot as int]));
        if self.cpu.branch_delay {
            return Ok(JitAction::Interpret);
        }
        let block = self.code.blocks[slot];
        let code = vstd::slice::slice_subrange(
            vstd::array::array_as_slice(&block.instructions),
            0,
            block.len as usize,
        );
        assert(code@ =~= block.code());
        Ok(self.jit.request(start, code, limit))
    }

    /// Interprets the cached block at an address. Returns the number of completed
    /// instructions.
    pub fn run_cached_instruction_block(&mut self, start: u32, limit: usize) -> (result: Result<
        u64,
        SimulatorError,
    >)
        requires
            old(self).wf(),
            old(self).code.holds(start),
        ensures
            final(self).wf(),
            *final(self) == (Emulator {
                cpu: final(self).cpu,
                memory: final(self).memory,
                cycle_count: final(self).cycle_count,
                jit: final(self).jit,
                ..*old(self)
            }),
            final(self).memory.heap_next == old(self).memory.heap_next,
            ({
                let run = interpreted_run(
                    old(self).cpu.state(),
                    old(self).memory@,
                    old(self).code.blocks@[block_slot(start)].code(),
                    0,
                    limit as int,
                    old(self).cpu.unknown_instruction_policy,
                );
                if !old(self).cpu.running {
                    &&& result == Ok::<u64, SimulatorError>(0)
                    &&& *final(self) == *old(self)
                } else {
                    &&& final(self).cpu.state() == run.state
                    &&& final(self).memory@ == run.memory
                    &&& final(self).cpu.instruction_count == old(
                        self,
                    ).cpu.instruction_count.wrapping_add(run.completed as u64)
                    &&& run.completed <= limit
                    &&& match run.error {
                        Some(error) => {
                            &&& result == Err::<u64, SimulatorError>(error)
                            &&& final(self).cycle_count == old(self).cycle_count.wrapping_add(
                                (run.completed * CPU_CYCLES_PER_INSTRUCTION) as u64,
                            )
                        },
                        None => {
                            &&& result == Ok::<u64, SimulatorError>(run.completed as u64)
                            &&& final(self).cycle_count == old(self).cycle_count
                        },
                    }
                }
            }),
            final(self).cpu.running == old(self).cpu.running,
            final(self).cpu.unknown_instruction_policy == old(self).cpu.unknown_instruction_policy,
            final(self).jit == match result {
                Ok(completed) => if old(self).cpu.running {
                    interpreted(old(self).jit, completed)
                } else {
                    old(self).jit
                },
                Err(_) => old(self).jit,
            },
    {
        if !self.cpu.is_running() {
            return Ok(0);
        }
        let slot: usize = crate::code_cache::instruction_block_cache_index(start);
        let block = self.code.blocks[slot];
        let code = vstd::slice::slice_subrange(
            vstd::array::array_as_slice(&block.instructions),
            0,
            block.len as usize,
        );
        assert(code@ =~= block.code());
        let (completed, error) = run_instructions(&mut self.cpu, &mut self.memory, code, limit);
        self.cpu.account_instructions(completed);
        match error {
            Some(error) => {
                self.cycle_count = self.cycle_count.wrapping_add(
                    completed * CPU_CYCLES_PER_INSTRUCTION,
                );
                Err(error)
            },
            None => {
                self.jit.record_interpreter_execution(completed);
                Ok(completed)
            },
        }
    }

    /// Takes the outcome of native code: the registers that it left, and the number
    /// of completed instructions. Returns that number, or nothing where the block
    /// is to be interpreted.
    pub fn finish_native_block(
        &mut self,
        start: u32,
        origin: RunOrigin,
        block: CompiledBlock,
        completed: u64,
    ) -> (result: Option<u64>)
        requires
            old(self).wf(),
        ensures
            final(self).wf(),
            *final(self) == (Emulator {
                cpu: final(self).cpu,
                jit: final(self).jit,
                ..*old(self)
            }),
            result == if completed == 0 {
                None
            } else {
                Some(completed)
            },
            final(self).cpu == (Cpu {
                instruction_count: old(self).cpu.instruction_count.wrapping_add(completed),
                ..old(self).cpu
            }),
            run_finished(old(self).jit, final(self).jit, start, origin, block, completed),
    {
        match self.jit.finish_run(start, origin, block, completed) {
            Some(completed) => {
                self.cpu.account_instructions(completed);
                Some(completed)
            },
            None => None,
        }
    }
}

impl Emulator {
    /// A machine with an application that has no file name.
    pub fn from_app(app: AppImage, jit_backend: bool) -> (result: Result<Emulator, SimulatorError>)
        ensures
            match load_obstacle(app) {
                Some(address) => result == Err::<Emulator, SimulatorError>(
                    SimulatorError::UnmappedAddress { address },
                ),
                None => {
                    &&& result is Ok
                    &&& result->Ok_0.freshly_loaded(app)
                    &&& !result->Ok_0.cpu.running
                    &&& result->Ok_0.app == Some(app)
                    &&& result->Ok_0.app_path@ == Seq::<char>::empty()
                    &&& result->Ok_0.save_directory is None
                    &&& result->Ok_0.jit.backend_available == jit_backend
                    &&& result->Ok_0.unknown_hle.policy == UnknownHlePolicy::Report
                    &&& result->Ok_0.unknown_hle.allowlist@.len() == 0
                    &&& result->Ok_0.unknown_hle.calls@.len() == 0
                },
            },
    {
        let app_path = String::new();
        assert(app_path@ =~= Seq::<char>::empty());
        Emulator::from_app_with_path(app, app_path, jit_backend)
    }

    /// The loaded application.
    pub fn app(&self) -> (app: Option<&AppImage>)
        ensures
            match app {
                Some(app) => self.app == Some(*app),
                None => self.app is None,
            },
    {
        self.app.as_ref()
    }

    /// Sets what happens when a function that is not implemented is called.
    pub fn set_unknown_hle_policy(&mut self, policy: UnknownHlePolicy)
        requires
            old(self).wf(),
        ensures
            final(self).wf(),
            *final(self) == (Emulator {
                unknown_hle: UnknownHleLog { policy, ..old(self).unknown_hle },
                ..*old(self)
            }),
    {
        self.unknown_hle.set_unknown_hle_policy(policy);
    }

    /// Sets the functions that may be called though they are not implemented.
    pub fn set_unknown_hle_allowlist(&mut self, names: Vec<String>)
        requires
            old(self).wf(),
        ensures
            final(self).wf(),
            *final(self) == (Emulator {
                unknown_hle: UnknownHleLog { allowlist: names, ..old(self).unknown_hle },
                ..*old(self)
            }),
    {
        self.unknown_hle.set_unknown_hle_allowlist(names);
    }

    /// Calls of functions that are not implemented, in the order of their names.
    pub fn unknown_hle_calls(&self) -> (calls: &Vec<UnknownHleCall>)
        ensures
            *calls == self.unknown_hle.calls,
    {
        self.unknown_hle.unknown_hle_calls()
    }

    /// Forgets the recorded calls.
    pub fn clear_unknown_hle_calls(&mut self)
        requires
            old(self).wf(),
        ensures
            final(self).wf(),
            final(self).unknown_hle.calls@.len() == 0,
            *final(self) == (Emulator {
                unknown_hle: UnknownHleLog {
                    calls: final(self).unknown_hle.calls,
                    ..old(self).unknown_hle
                },
                ..*old(self)
            }),
    {
        self.unknown_hle.clear_unknown_hle_calls();
    }

    /// Allows or forbids native code.
    pub fn set_jit_enabled(&mut self, enabled: bool)
        requires
            old(self).wf(),
        ensures
            final(self).wf(),
            *final(self) == (Emulator {
                jit: JitEngine { enabled, ..old(self).jit },
                ..*old(self)
            }),
    {
        self.jit.set_enabled(enabled);
    }

    /// Starts or stops counting what the engine does. Counts start at zero.
    pub fn set_jit_diagnostics_enabled(&mut self, enabled: bool)
        requires
            old(self).wf(),
        ensures
            final(self).wf(),
            *final(self) == (Emulator {
                jit: crate::jit::engine::diagnostics_switched(old(self).jit, enabled),
                ..*old(self)
            }),
    {
        self.jit.set_diagnostics_enabled(enabled);
    }

    /// A snapshot of what the engine counted.
    pub fn jit_diagnostics(&self) -> (snapshot: JitDiagnostics)
        requires
            self.wf(),
        ensures
            self.jit.snapshot_is(snapshot),
    {
        self.jit.diagnostics()
    }

    /// Patches the application for a higher frame rate, or takes the patches back,
    /// where it is one that patches are known for. Says whether the host is to
    /// replace its backend.
    pub fn set_frame_rate_enhancement_enabled(&mut self, enabled: bool) -> (result: Result<
        bool,
        SimulatorError,
    >)
        requires
            old(self).wf(),
        ensures
            final(self).wf(),
            match known_patches(old(self).app) {
                None => {
                    &&& result == Ok::<bool, SimulatorError>(false)
                    &&& *final(self) == *old(self)
                },
                Some(patches) => match first_obstacle(old(self).memory@, patches, 0) {
                    Some(error) => {
                        &&& result == Err::<bool, SimulatorError>(error)
                        &&& final(self).memory@ == old(self).memory@
                        &&& final(self).memory.heap_next == old(self).memory.heap_next
                        &&& *final(self) == (Emulator {
                            memory: final(self).memory,
                            ..*old(self)
                        })
                    },
                    None => {
                        &&& result == Ok::<bool, SimulatorError>(
                            old(self).jit.compiled_block_count != 0
                                && old(self).jit.backend_available,
                        )
                        &&& final(self).memory@ == patched(old(self).memory@, patches, enabled)
                        &&& final(self).memory.heap_next == old(self).memory.heap_next
                        &&& final(self).instructions_forgotten(
                            &(Emulator { memory: final(self).memory, ..*old(self) }),
                        )
                    },
                },
            },
    {
        let profile = match &self.app {
            Some(app) => frame_rate_enhancement_profile(app),
            None => None,
        };
        match profile {
            None => Ok(false),
            Some(profile) => match apply_frame_rate_enhancement(
                &mut self.memory,
                &profile,
                enabled,
            ) {
                Ok(_) => Ok(self.clear_instruction_cache()),
                Err(error) => Err(error),
            },
        }
    }

    /// One frame of sound.
    pub fn take_audio_samples(&mut self) -> (samples: Vec<i16>)
        requires
            old(self).wf(),
            old(self).audio.output_frame_remainder + crate::audio::OUTPUT_SAMPLE_RATE <= u32::MAX,
        ensures
            final(self).wf(),
            frame_taken(old(self).audio, final(self).audio, samples@),
            *final(self) == (Emulator { audio: final(self).audio, ..*old(self) }),
    {
        self.audio.take_frame_samples()
    }
}

/// However contexts run, wait or submit pictures, a frame that has ended took as
/// many cycles as a frame has.
pub proof fn law_frame_takes_its_cycles(emulator: Emulator, tick: Tick)
    requires
        emulator.in_tick(&tick),
        tick.slice is None,
        tick.remaining_cycles == 0,
    ensures
        emulator.cycle_count == tick.start_cycle.wrapping_add(CYCLES_PER_FRAME),
{
}

} // verus!
