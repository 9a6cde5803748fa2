//! Saving and restoring the state of the machine.
//!
//! The host turns the captured values into bytes and back. What is saved of an
//! open file names it relative to the directory of saved files, so that the
//! directory may move.

use crate::app_image::AppImage;
use crate::audio::Audio;
use crate::code_cache::INSTRUCTION_BLOCK_CACHE_SLOTS;
use crate::cpu::Cpu;
use crate::directories::{
    law_saved_paths_are_relative_to_their_directory, law_stripping_is_undone_by_joining, same_path,
    strip_directory, stripped,
};
use crate::emulator::{export_address, import_hooks, load_obstacle, Emulator, GuiState, Video};
use crate::error::SimulatorError;
use crate::files::{FileTable, OpenFile};
use crate::input::Input;
use crate::jit::engine::JitEngine;
use crate::memory::{FRAMEBUFFER_MAP_SIZE, FRAMEBUFFER_SIZE, HEAP_BASE, HEAP_END, Memory, RAM_SIZE};
use crate::outside::{crc32, crc32_of};
use crate::paths::{join_path, joined, safe_relative, safe_relative_path, save_path};
use crate::save_state::{
    decode, encode, encoded, reads_back, restored, SERIALIZED_SIZE, SaveStateError,
};
use crate::search::SearchTable;
use crate::tasks::{MAX_GUEST_TASKS, Scheduler};
use vstd::prelude::*;
use vstd::string::*;

verus! {

/// Why a state could not be saved or restored.
#[derive(Clone, Copy, Debug, PartialEq, Eq, Structural)]
pub enum StateError {
    /// Nothing is loaded.
    NoContent,
    /// The container is refused.
    Container(SaveStateError),
    /// An open file is saved, and there is no directory for saved files.
    NoSaveDirectory,
    /// An open file is saved outside the directory for saved files.
    OutsideSaveDirectory,
    /// The path of a saved file leaves the directory for saved files.
    UnsafePath,
    /// Memory or the picture have other sizes.
    IncompatibleMemory,
    /// There are too many tasks, or the active one does not exist.
    InvalidTasks,
    /// The application cannot be loaded at this address any more.
    Unloadable(u32),
}

/// An open file, as its contents.
#[verifier::ext_equal]
pub struct FileView {
    pub data: Seq<u8>,
    pub position: usize,
    pub data_ptr: u32,
    pub save_path: Option<Seq<char>>,
    pub writable: bool,
    pub dirty: bool,
}

impl View for OpenFile {
    type V = FileView;

    open spec fn view(&self) -> FileView {
        FileView {
            data: self.data@,
            position: self.position,
            data_ptr: self.data_ptr,
            save_path: text_view(self.save_path),
            writable: self.writable,
            dirty: self.dirty,
        }
    }
}

/// A text as its characters, if there is one.
pub open spec fn text_view(text: Option<String>) -> Option<Seq<char>> {
    match text {
        Some(text) => Some(text@),
        None => None,
    }
}

/// Everything that a saved state holds.
pub struct EmulatorState {
    pub cpu: Cpu,
    pub memory: Memory,
    pub video: Video,
    pub input: Input,
    pub audio: Audio,
    pub frame_count: u64,
    pub cycle_count: u64,
    pub scheduler: Scheduler,
    /// Open files with their handles; paths are relative.
    pub open_files: Vec<(u32, OpenFile)>,
    pub next_file_handle: u32,
    pub searches: SearchTable,
    pub gui: GuiState,
    pub app_main_args_initialized: bool,
    pub locale_ansi_buffer: Option<u32>,
    pub framebuffer_submitted: bool,
}

// Paths.

/// What is saved of a file's path.
pub open spec fn relative_path(
    directory: Option<Seq<char>>,
    path: Option<Seq<char>>,
) -> Result<Option<Seq<char>>, StateError> {
    match (path, directory) {
        (None, _) => Ok(None),
        (Some(_), None) => Err(StateError::NoSaveDirectory),
        (Some(path), Some(directory)) => match stripped(directory, path) {
            None => Err(StateError::OutsideSaveDirectory),
            Some(relative) => if safe_relative(relative) {
                Ok(Some(relative))
            } else {
                Err(StateError::UnsafePath)
            },
        },
    }
}

/// What is restored of a file's path.
pub open spec fn absolute_path(
    directory: Option<Seq<char>>,
    path: Option<Seq<char>>,
) -> Result<Option<Seq<char>>, StateError> {
    match (path, directory) {
        (None, _) => Ok(None),
        (Some(path), directory) => if !safe_relative(path) {
            Err(StateError::UnsafePath)
        } else {
            match directory {
                Some(directory) => Ok(Some(joined(directory, path))),
                None => Err(StateError::NoSaveDirectory),
            }
        },
    }
}

/// A saved file keeps its path: what is saved of it is restored to it.
pub proof fn law_saved_file_paths_survive(directory: Seq<char>, name: Seq<char>)
    ensures
        save_path(name) matches Some(path) ==> {
            let whole = Some(joined(directory, path));
            &&& relative_path(Some(directory), whole) == Ok::<Option<Seq<char>>, StateError>(
                Some(path),
            )
            &&& absolute_path(Some(directory), Some(path)) == Ok::<Option<Seq<char>>, StateError>(
                whole,
            )
        },
{
    law_saved_paths_are_relative_to_their_directory(directory, name);
    crate::paths::law_saved_files_stay_in_their_directory(name);
}

fn to_relative(directory: &Option<String>, path: &Option<String>) -> (result: Result<
    Option<String>,
    StateError,
>)
    ensures
        match relative_path(text_view(*directory), text_view(*path)) {
            Ok(expected) => result matches Ok(text) && text_view(text) == expected,
            Err(error) => result == Err::<Option<String>, StateError>(error),
        },
{
    match (path, directory) {
        (None, _) => Ok(None),
        (Some(_), None) => Err(StateError::NoSaveDirectory),
        (Some(path), Some(directory)) => match strip_directory(
            directory.as_str(),
            path.as_str(),
        ) {
            None => Err(StateError::OutsideSaveDirectory),
            Some(relative) => if safe_relative_path(relative.as_str()) {
                Ok(Some(relative))
            } else {
                Err(StateError::UnsafePath)
            },
        },
    }
}

fn to_absolute(directory: &Option<String>, path: &Option<String>) -> (result: Result<
    Option<String>,
    StateError,
>)
    ensures
        match absolute_path(text_view(*directory), text_view(*path)) {
            Ok(expected) => result matches Ok(text) && text_view(text) == expected,
            Err(error) => result == Err::<Option<String>, StateError>(error),
        },
{
    match path {
        None => Ok(None),
        Some(path) => if !safe_relative_path(path.as_str()) {
            Err(StateError::UnsafePath)
        } else {
            match directory {
                Some(directory) => Ok(Some(join_path(directory.as_str(), path.as_str()))),
                None => Err(StateError::NoSaveDirectory),
            }
        },
    }
}

// Saving.

/// The first obstacle to saving open files, from one of them on.
pub open spec fn capture_obstacle(
    handles: Seq<u32>,
    files: Map<u32, OpenFile>,
    directory: Option<Seq<char>>,
    from: int,
) -> Option<StateError>
    decreases handles.len() - from,
{
    if from < 0 || from >= handles.len() {
        None
    } else {
        match relative_path(directory, files[handles[from]]@.save_path) {
            Err(error) => Some(error),
            Ok(_) => capture_obstacle(handles, files, directory, from + 1),
        }
    }
}

/// The first obstacle to restoring open files, from one of them on.
pub open spec fn restore_obstacle(
    files: Seq<(u32, OpenFile)>,
    directory: Option<Seq<char>>,
    from: int,
) -> Option<StateError>
    decreases files.len() - from,
{
    if from < 0 || from >= files.len() {
        None
    } else {
        match absolute_path(directory, files[from].1@.save_path) {
            Err(error) => Some(error),
            Ok(_) => restore_obstacle(files, directory, from + 1),
        }
    }
}

/// A file whose path is restored.
pub open spec fn restored_file(directory: Option<Seq<char>>, file: FileView) -> FileView {
    FileView {
        save_path: match absolute_path(directory, file.save_path) {
            Ok(path) => path,
            Err(_) => None,
        },
        ..file
    }
}

/// The files that are open after a restoration.
pub open spec fn restored_files(
    files: Seq<(u32, OpenFile)>,
    directory: Option<Seq<char>>,
) -> Map<u32, FileView>
    decreases files.len(),
{
    if files.len() == 0 {
        Map::empty()
    } else {
        restored_files(files.skip(1), directory).insert(
            files[0].0,
            restored_file(directory, files[0].1@),
        )
    }
}

/// Open files as their contents.
pub open spec fn file_views(files: Map<u32, OpenFile>) -> Map<u32, FileView> {
    files.map_values(|file: OpenFile| file@)
}

impl EmulatorState {
    /// Whether memory and picture have the sizes of this machine.
    pub open spec fn compatible_memory(&self) -> bool {
        &&& self.memory.wf()
        &&& self.video.wf()
    }

    /// Whether there are not too many tasks, and the active one exists.
    pub open spec fn valid_tasks(&self) -> bool {
        &&& self.scheduler.tasks@.len() <= MAX_GUEST_TASKS
        &&& self.scheduler.active_task matches Some(index) ==> index < self.scheduler.tasks@.len()
    }

    fn has_compatible_memory(&self) -> (result: bool)
        ensures
            result == self.compatible_memory(),
    {
        self.memory.ram.len() == RAM_SIZE as usize && self.memory.framebuffer.len()
            == FRAMEBUFFER_MAP_SIZE as usize && HEAP_BASE <= self.memory.heap_next
            && self.memory.heap_next <= HEAP_END && self.video.framebuffer.len()
            == FRAMEBUFFER_SIZE
    }

    fn has_valid_tasks(&self) -> (result: bool)
        ensures
            result == self.valid_tasks(),
    {
        self.scheduler.tasks.len() <= MAX_GUEST_TASKS && match self.scheduler.active_task {
            Some(index) => index < self.scheduler.tasks.len(),
            None => true,
        }
    }
}

/// Why a state is refused, if it is.
pub open spec fn refusal(emulator: Emulator, state: EmulatorState) -> Option<StateError> {
    match emulator.app {
        None => Some(StateError::NoContent),
        Some(app) => {
            let paths = restore_obstacle(
                state.open_files@,
                text_view(emulator.save_directory),
                0,
            );
            if !state.compatible_memory() {
                Some(StateError::IncompatibleMemory)
            } else if !state.valid_tasks() {
                Some(StateError::InvalidTasks)
            } else if paths is Some {
                paths
            } else {
                match load_obstacle(app) {
                    Some(address) => Some(StateError::Unloadable(address)),
                    None => None,
                }
            }
        },
    }
}

/// Whether a machine is what another one becomes by restoring a state. The
/// application, settings and recorded calls stay; no instructions are cached.
pub open spec fn restored_from(before: Emulator, state: EmulatorState, after: Emulator) -> bool {
    let app = before.app->0;
    let main = export_address(app.exports@, "AppMain"@, 0);
    &&& after == (Emulator {
        cpu: state.cpu,
        memory: after.memory,
        video: state.video,
        input: state.input,
        audio: state.audio,
        frame_count: state.frame_count,
        cycle_count: state.cycle_count,
        scheduler: state.scheduler,
        code: after.code,
        jit: after.jit,
        files: after.files,
        searches: state.searches,
        gui: state.gui,
        app_main_args_initialized: state.app_main_args_initialized,
        locale_ansi_buffer: state.locale_ansi_buffer,
        framebuffer_submitted: state.framebuffer_submitted,
        ..before
    })
    &&& after.memory@ == state.memory@
    &&& after.memory.heap_next == state.memory.heap_next
    &&& file_views(after.files.files@) == restored_files(
        state.open_files@,
        text_view(before.save_directory),
    )
    &&& after.files.next_file_handle == state.next_file_handle
    &&& after.code.hooks.names@ == import_hooks(app.imports@)
    &&& after.code.app_main_entry == main
    &&& after.code.app_main_init_check_address == match main {
        Some(address) => Some(address.wrapping_add(crate::emulator::INIT_CHECK_OFFSET)),
        None => None,
    }
    &&& forall|i: int|
        0 <= i < INSTRUCTION_BLOCK_CACHE_SLOTS ==> (#[trigger] after.code.blocks@[i]).len == 0
    &&& after.jit.is_new(before.jit.backend_available)
}

/// Finds an obstacle to restoring open files.
fn find_restore_obstacle(files: &Vec<(u32, OpenFile)>, directory: &Option<String>) -> (obstacle:
    Option<StateError>)
    ensures
        obstacle == restore_obstacle(files@, text_view(*directory), 0),
{
    let mut index: usize = 0;
    while index < files.len()
        invariant
            index <= files@.len(),
            restore_obstacle(files@, text_view(*directory), 0) == restore_obstacle(
                files@,
                text_view(*directory),
                index as int,
            ),
        decreases files@.len() - index,
    {
        match to_absolute(directory, &files[index].1.save_path) {
            Ok(_) => {},
            Err(error) => {
                return Some(error);
            },
        }
        index = index + 1;
    }
    None
}

/// Opens files again.
fn reopen_files(files: Vec<(u32, OpenFile)>, next_file_handle: u32, directory: &Option<String>) -> (
table: FileTable)
    ensures
        table.wf(),
        file_views(table.files@) == restored_files(files@, text_view(*directory)),
        table.next_file_handle == next_file_handle,
{
    let mut files = files;
    let ghost all = files@;
    let mut table = FileTable::new();
    table.next_file_handle = next_file_handle;
    proof {
        assert(all.skip(all.len() as int) =~= Seq::<(u32, OpenFile)>::empty());
        assert(file_views(table.files@) =~= Map::<u32, FileView>::empty());
    }
    while files.len() > 0
        invariant
            files@.len() <= all.len(),
            files@ == all.take(files@.len() as int),
            table.wf(),
            table.next_file_handle == next_file_handle,
            file_views(table.files@) == restored_files(
                all.skip(files@.len() as int),
                text_view(*directory),
            ),
        decreases files@.len(),
    {
        let ghost count = files@.len() as int;
        let ghost before = table.files@;
        if let Some((handle, file)) = files.pop() {
            proof {
                assert(files@ =~= all.take(count - 1));
                assert(all.skip(count - 1).skip(1) =~= all.skip(count));
                assert(all.skip(count - 1)[0] == all[count - 1]);
            }
            let path = match to_absolute(directory, &file.save_path) {
                Ok(path) => path,
                Err(_) => None,
            };
            let opened = OpenFile {
                data: file.data,
                position: file.position,
                data_ptr: file.data_ptr,
                save_path: path,
                writable: file.writable,
                dirty: file.dirty,
            };
            assert(opened@ == restored_file(text_view(*directory), file@));
            table.put(handle, opened);
            assert(file_views(table.files@) =~= file_views(before).insert(handle, opened@));
        }
    }
    assert(all.skip(0) =~= all);
    table
}

/// What putting a state, as bytes, into a container for some content does.
pub open spec fn serialized(
    app: AppImage,
    state: Seq<u8>,
    before: Seq<u8>,
    after: Seq<u8>,
    result: Result<(), StateError>,
) -> bool {
    let content_crc32 = crc32_of(app.data@);
    match result {
        Ok(_) => encoded(state, content_crc32, before, after, Ok(())),
        Err(error) => error matches StateError::Container(error) && encoded(
            state,
            content_crc32,
            before,
            after,
            Err(error),
        ),
    }
}

impl Emulator {
    /// Capacity of a buffer for a saved state.
    pub fn serialized_state_size(&self) -> (size: usize)
        ensures
            size == SERIALIZED_SIZE,
    {
        SERIALIZED_SIZE
    }

    /// What is saved of the path of each open file, in the order of their handles.
    pub fn relative_save_paths(&self) -> (result: Result<Vec<(u32, Option<String>)>, StateError>)
        requires
            self.wf(),
        ensures
            match self.app {
                None => result == Err::<Vec<(u32, Option<String>)>, StateError>(
                    StateError::NoContent,
                ),
                Some(_) => match capture_obstacle(
                    self.files.handles@,
                    self.files.files@,
                    text_view(self.save_directory),
                    0,
                ) {
                    Some(error) => result == Err::<Vec<(u32, Option<String>)>, StateError>(error),
                    None => {
                        &&& result is Ok
                        &&& result->Ok_0@.len() == self.files.handles@.len()
                        &&& forall|i: int|
                            #![trigger result->Ok_0@[i]]
                            0 <= i < self.files.handles@.len() ==> {
                                let handle = self.files.handles@[i];
                                &&& result->Ok_0@[i].0 == handle
                                &&& relative_path(
                                    text_view(self.save_directory),
                                    self.files.files@[handle]@.save_path,
                                ) == Ok::<Option<Seq<char>>, StateError>(
                                    text_view(result->Ok_0@[i].1),
                                )
                            }
                    },
                },
            },
    {
        broadcast use vstd::std_specs::hash::group_hash_axioms;

        if self.app.is_none() {
            return Err(StateError::NoContent);
        }
        let mut paths: Vec<(u32, Option<String>)> = Vec::new();
        let mut index: usize = 0;
        while index < self.files.handles.len()
            invariant
                self.wf(),
                self.app is Some,
                index <= self.files.handles@.len(),
                paths@.len() == index,
                capture_obstacle(
                    self.files.handles@,
                    self.files.files@,
                    text_view(self.save_directory),
                    0,
                ) == capture_obstacle(
                    self.files.handles@,
                    self.files.files@,
                    text_view(self.save_directory),
                    index as int,
                ),
                forall|i: int|
                    #![trigger paths@[i]]
                    0 <= i < index ==> {
                        let handle = self.files.handles@[i];
                        &&& paths@[i].0 == handle
                        &&& relative_path(
                            text_view(self.save_directory),
                            self.files.files@[handle]@.save_path,
                        ) == Ok::<Option<Seq<char>>, StateError>(text_view(paths@[i].1))
                    },
            decreases self.files.handles@.len() - index,
        {
            let handle: u32 = self.files.handles[index];
            assert(self.files.handles@.contains(handle));
            assert(self.files.files@.contains_key(handle));
            match self.files.files.get(&handle) {
                Some(file) => match to_relative(&self.save_directory, &file.save_path) {
                    Ok(path) => {
                        paths.push((handle, path));
                    },
                    Err(error) => {
                        return Err(error);
                    },
                },
                None => {},
            }
            index = index + 1;
        }
        Ok(paths)
    }

    /// Puts a captured state, as bytes, into a container for the loaded content.
    pub fn serialize_state(&self, state: &[u8], output: &mut [u8]) -> (result: Result<
        (),
        StateError,
    >)
        ensures
            match self.app {
                None => {
                    &&& result == Err::<(), StateError>(StateError::NoContent)
                    &&& final(output)@ == old(output)@
                },
                Some(app) => serialized(app, state@, old(output)@, final(output)@, result),
            },
    {
        match &self.app {
            None => Err(StateError::NoContent),
            Some(app) => match encode(state, crc32(app.data.as_slice()), output) {
                Ok(_) => Ok(()),
                Err(error) => Err(StateError::Container(error)),
            },
        }
    }

    /// Takes a state, as bytes, from a container for the loaded content.
    pub fn unserialize_state(&self, input: &[u8]) -> (result: Result<Vec<u8>, StateError>)
        ensures
            match self.app {
                None => result == Err::<Vec<u8>, StateError>(StateError::NoContent),
                Some(app) => match restored(input@, crc32_of(app.data@)) {
                    Ok(state) => result matches Ok(bytes) && bytes@ == state,
                    Err(error) => result == Err::<Vec<u8>, StateError>(
                        StateError::Container(error),
                    ),
                },
            },
    {
        match &self.app {
            None => Err(StateError::NoContent),
            Some(app) => match decode(input, crc32(app.data.as_slice())) {
                Ok(bytes) => Ok(bytes),
                Err(error) => Err(StateError::Container(error)),
            },
        }
    }

    /// Restores a state. A state that is refused changes nothing. The host replaces
    /// its backend.
    pub fn restore_state(&mut self, state: EmulatorState) -> (result: Result<(), StateError>)
        requires
            old(self).wf(),
        ensures
            final(self).wf(),
            match refusal(*old(self), state) {
                Some(error) => {
                    &&& result == Err::<(), StateError>(error)
                    &&& *final(self) == *old(self)
                },
                None => {
                    &&& result is Ok
                    &&& restored_from(*old(self), state, *final(self))
                },
            },
    {
        let app = match &self.app {
            Some(app) => app,
            None => {
                return Err(StateError::NoContent);
            },
        };
        if !state.has_compatible_memory() {
            return Err(StateError::IncompatibleMemory);
        }
        if !state.has_valid_tasks() {
            return Err(StateError::InvalidTasks);
        }
        match find_restore_obstacle(&state.open_files, &self.save_directory) {
            Some(error) => {
                return Err(error);
            },
            None => {},
        }
        match crate::emulator::load_memory(app) {
            Ok(_) => {},
            Err(error) => {
                return Err(
                    match error {
                        SimulatorError::UnmappedAddress { address } => StateError::Unloadable(
                            address,
                        ),
                        _ => StateError::NoContent,
                    },
                );
            },
        }
        let code = crate::emulator::fresh_code(app);
        let backend: bool = self.jit.backend_available;
        self.code = code;
        self.jit = JitEngine::new(backend);
        self.files = reopen_files(state.open_files, state.next_file_handle, &self.save_directory);
        self.cpu = state.cpu;
        self.memory.copy_state_from(&state.memory);
        self.video = state.video;
        self.input = state.input;
        self.audio = state.audio;
        self.frame_count = state.frame_count;
        self.cycle_count = state.cycle_count;
        self.scheduler = state.scheduler;
        self.searches = state.searches;
        self.gui = state.gui;
        self.app_main_args_initialized = state.app_main_args_initialized;
        self.locale_ansi_buffer = state.locale_ansi_buffer;
        self.framebuffer_submitted = state.framebuffer_submitted;
        Ok(())
    }
}

// Saving and restoring.

/// Whether a state holds what a machine has, with the paths that are saved.
pub open spec fn captures(state: EmulatorState, emulator: Emulator) -> bool {
    let directory = text_view(emulator.save_directory);
    let handles = emulator.files.handles@;
    &&& state.cpu == emulator.cpu
    &&& state.memory@ == emulator.memory@
    &&& state.memory.heap_next == emulator.memory.heap_next
    &&& state.video == emulator.video
    &&& state.input == emulator.input
    &&& state.audio == emulator.audio
    &&& state.frame_count == emulator.frame_count
    &&& state.cycle_count == emulator.cycle_count
    &&& state.scheduler == emulator.scheduler
    &&& state.searches == emulator.searches
    &&& state.gui == emulator.gui
    &&& state.app_main_args_initialized == emulator.app_main_args_initialized
    &&& state.locale_ansi_buffer == emulator.locale_ansi_buffer
    &&& state.framebuffer_submitted == emulator.framebuffer_submitted
    &&& state.next_file_handle == emulator.files.next_file_handle
    &&& state.open_files@.len() == handles.len()
    &&& forall|i: int|
        #![trigger state.open_files@[i]]
        0 <= i < handles.len() ==> captured_file(
            state.open_files@[i],
            handles[i],
            emulator.files.files@[handles[i]]@,
            directory,
        )
}

/// Whether an open file is saved with the path that belongs to it.
pub open spec fn captured_file(
    saved: (u32, OpenFile),
    handle: u32,
    file: FileView,
    directory: Option<Seq<char>>,
) -> bool {
    &&& saved.0 == handle
    &&& saved.1@ == (FileView { save_path: saved.1@.save_path, ..file })
    &&& relative_path(directory, file.save_path) == Ok::<Option<Seq<char>>, StateError>(
        saved.1@.save_path,
    )
}

/// Whether files are the same, and are saved at the same path.
pub open spec fn same_file(left: FileView, right: FileView) -> bool {
    &&& left == (FileView { save_path: left.save_path, ..right })
    &&& match (left.save_path, right.save_path) {
        (Some(left), Some(right)) => same_path(left, right),
        (None, None) => true,
        _ => false,
    }
}

proof fn lemma_restored_files(
    entries: Seq<(u32, OpenFile)>,
    handles: Seq<u32>,
    files: Map<u32, OpenFile>,
    directory: Option<Seq<char>>,
)
    requires
        entries.len() == handles.len(),
        handles.no_duplicates(),
        forall|i: int|
            #![trigger entries[i]]
            0 <= i < handles.len() ==> captured_file(
                entries[i],
                handles[i],
                files[handles[i]]@,
                directory,
            ),
    ensures
        restore_obstacle(entries, directory, 0) is None,
        forall|handle: u32| #[trigger]
            restored_files(entries, directory).contains_key(handle) <==> handles.contains(handle),
        forall|handle: u32| #[trigger]
            restored_files(entries, directory).contains_key(handle) ==> same_file(
                restored_files(entries, directory)[handle],
                files[handle]@,
            ),
    decreases entries.len(),
{
    lemma_no_restore_obstacle(entries, handles, files, directory, 0);
    if entries.len() > 0 {
        let rest = entries.skip(1);
        let others = handles.skip(1);
        assert forall|i: int| #![trigger rest[i]] 0 <= i < others.len() implies captured_file(
            rest[i],
            others[i],
            files[others[i]]@,
            directory,
        ) by {
            assert(rest[i] == entries[i + 1]);
        }
        assert(others.no_duplicates()) by {
            assert forall|i: int, j: int|
                0 <= i < others.len() && 0 <= j < others.len() && i != j implies others[i]
                != others[j] by {
                assert(handles[i + 1] != handles[j + 1]);
            }
        }
        lemma_restored_files(rest, others, files, directory);
        assert(captured_file(entries[0], handles[0], files[handles[0]]@, directory));
        lemma_restored_path(directory, files[handles[0]]@.save_path);
        let opened = restored_file(directory, entries[0].1@);
        assert(same_file(opened, files[handles[0]]@));
        let earlier = restored_files(rest, directory);
        let whole = restored_files(entries, directory);
        assert(whole == earlier.insert(handles[0], opened));
        assert forall|handle: u32| #[trigger]
            whole.contains_key(handle) <==> handles.contains(handle) by {
            assert(earlier.contains_key(handle) <==> others.contains(handle));
            if handles.contains(handle) {
                let i = choose|i: int| 0 <= i < handles.len() && handles[i] == handle;
                if i > 0 {
                    assert(others[i - 1] == handle);
                }
            }
            if others.contains(handle) {
                let i = choose|i: int| 0 <= i < others.len() && others[i] == handle;
                assert(handles[i + 1] == handle);
            }
            if handle == handles[0] {
                assert(handles.contains(handles[0]));
            }
        }
        assert forall|handle: u32| #[trigger] whole.contains_key(handle) implies same_file(
            whole[handle],
            files[handle]@,
        ) by {
            if handle != handles[0] {
                assert(earlier.contains_key(handle));
            }
        }
    }
}

proof fn lemma_restored_path(directory: Option<Seq<char>>, path: Option<Seq<char>>)
    requires
        relative_path(directory, path) is Ok,
    ensures
        absolute_path(directory, relative_path(directory, path)->Ok_0) matches Ok(whole)
            && match (whole, path) {
            (Some(whole), Some(path)) => same_path(whole, path),
            (None, None) => true,
            _ => false,
        },
{
    if let (Some(path), Some(directory)) = (path, directory) {
        law_stripping_is_undone_by_joining(directory, path);
    }
}

proof fn lemma_no_restore_obstacle(
    entries: Seq<(u32, OpenFile)>,
    handles: Seq<u32>,
    files: Map<u32, OpenFile>,
    directory: Option<Seq<char>>,
    from: int,
)
    requires
        0 <= from,
        entries.len() == handles.len(),
        forall|i: int|
            #![trigger entries[i]]
            0 <= i < handles.len() ==> captured_file(
                entries[i],
                handles[i],
                files[handles[i]]@,
                directory,
            ),
    ensures
        restore_obstacle(entries, directory, from) is None,
    decreases entries.len() - from,
{
    if from < entries.len() {
        assert(captured_file(entries[from], handles[from], files[handles[from]]@, directory));
        lemma_restored_path(directory, files[handles[from]]@.save_path);
        lemma_no_restore_obstacle(entries, handles, files, directory, from + 1);
    }
}

/// Restoring what was saved brings a machine back to what it was, whatever ran in
/// between, and a machine with the same content and the same directory for saved
/// files to what another one was. The container gives the saved bytes back, nothing
/// refuses the state in them, every value that a state holds is the saved one, and
/// the same files are open and are saved at the same paths. The application, the
/// directory, and what was set and recorded for functions that are not implemented
/// stay as they were.
pub proof fn law_restore_brings_back_what_was_saved(
    saved: Emulator,
    state: EmulatorState,
    bytes: Seq<u8>,
    buffer: Seq<u8>,
    output: Seq<u8>,
    before: Emulator,
    after: Emulator,
)
    requires
        saved.wf(),
        captures(state, saved),
        saved.app matches Some(app) && serialized(app, bytes, buffer, output, Ok(())),
        reads_back(bytes.len() as int),
        before.app matches Some(app) && app.data@ == saved.app->0.data@,
        load_obstacle(before.app->0) is None,
        text_view(before.save_directory) == text_view(saved.save_directory),
        refusal(before, state) is None ==> restored_from(before, state, after),
    ensures
        restored(output, crc32_of(before.app->0.data@)) == Ok::<Seq<u8>, SaveStateError>(bytes),
        refusal(before, state) is None,
        after.cpu == saved.cpu,
        after.memory@ == saved.memory@,
        after.memory.heap_next == saved.memory.heap_next,
        after.video == saved.video,
        after.input == saved.input,
        after.audio == saved.audio,
        after.frame_count == saved.frame_count,
        after.cycle_count == saved.cycle_count,
        after.scheduler == saved.scheduler,
        after.searches == saved.searches,
        after.gui == saved.gui,
        after.app_main_args_initialized == saved.app_main_args_initialized,
        after.locale_ansi_buffer == saved.locale_ansi_buffer,
        after.framebuffer_submitted == saved.framebuffer_submitted,
        after.files.next_file_handle == saved.files.next_file_handle,
        after.files.files@.dom() == saved.files.files@.dom(),
        forall|handle: u32| #[trigger]
            after.files.files@.contains_key(handle) ==> same_file(
                after.files.files@[handle]@,
                saved.files.files@[handle]@,
            ),
        after.app == before.app,
        after.app_path == before.app_path,
        after.save_directory == before.save_directory,
        after.unknown_hle == before.unknown_hle,
{
    let directory = text_view(saved.save_directory);
    let handles = saved.files.handles@;
    let files = saved.files.files@;
    assert forall|i: int|
        #![trigger state.open_files@[i]]
        0 <= i < handles.len() implies captured_file(
        state.open_files@[i],
        handles[i],
        files[handles[i]]@,
        directory,
    ) by {
        assert(handles.contains(handles[i]));
        assert(files.contains_key(handles[i]));
    }
    lemma_restored_files(state.open_files@, handles, files, directory);
    let opened = restored_files(state.open_files@, directory);
    assert forall|handle: u32| #[trigger]
        after.files.files@.contains_key(handle) <==> files.contains_key(handle) by {
        assert(file_views(after.files.files@) == opened);
        assert(opened.contains_key(handle) <==> handles.contains(handle));
        assert(files.contains_key(handle) <==> handles.contains(handle));
        assert(file_views(after.files.files@).contains_key(handle)
            <==> after.files.files@.contains_key(handle));
    }
    assert(after.files.files@.dom() =~= files.dom());
    assert forall|handle: u32| #[trigger] after.files.files@.contains_key(handle) implies same_file(
        after.files.files@[handle]@,
        files[handle]@,
    ) by {
        assert(opened.contains_key(handle));
        assert(file_views(after.files.files@)[handle] == after.files.files@[handle]@);
    }
}

} // verus!
