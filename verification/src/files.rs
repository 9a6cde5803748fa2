//! Open files of the guest.
//!
//! A file is read as a whole when it is opened. The host reads and writes the
//! files of its own file system; what it found is an argument here.

use crate::app_image::ResourceKind;
use crate::error::SimulatorError;
use crate::memory::{
    accessible_prefix, allocation, bytes_at, heap_after, put_bytes, Memory, MemoryView,
};
use crate::resource::{prepare_resource_file_data, resource_view};
use crate::state::text_view;
use std::collections::HashMap;
use vstd::prelude::*;
use vstd::string::*;

verus! {

broadcast use vstd::std_specs::hash::group_hash_axioms;

/// An open file.
#[derive(Debug)]
pub struct OpenFile {
    pub data: Vec<u8>,
    pub position: usize,
    /// Guest address of a copy of the data; zero where there is none.
    pub data_ptr: u32,
    /// Where the file is saved on the host, where it is.
    pub save_path: Option<String>,
    pub writable: bool,
    /// Whether the file changed since it was saved.
    pub dirty: bool,
}

/// What the host found at a path.
#[derive(Debug)]
pub enum HostRead {
    Data(Vec<u8>),
    NotFound,
    Failed,
}

/// Outcome of the first stage of opening a file.
#[derive(Clone, Copy, Debug, PartialEq, Eq, Structural)]
pub enum GuestOpen {
    /// The saved file was opened.
    Opened(u32),
    /// The file cannot be opened in this mode.
    Refused,
    /// The application's resources come next, then the files beside it.
    Continue,
}

/// Open files by guest handle.
pub struct FileTable {
    pub files: HashMap<u32, OpenFile>,
    pub handles: Vec<u32>,
    pub next_file_handle: u32,
}

/// The handle behind another one, which is not zero.
pub open spec fn following_handle(handle: u32) -> u32 {
    if handle == u32::MAX {
        1
    } else {
        (handle + 1) as u32
    }
}

/// A product of two words, as far as it can be a length.
pub open spec fn clamped_product(left: u32, right: u32) -> int {
    if left * right > usize::MAX {
        usize::MAX as int
    } else {
        left * right
    }
}

/// Bytes from the position of a file to its end.
pub open spec fn remaining(file: OpenFile) -> int {
    if file.position <= file.data@.len() {
        file.data@.len() - file.position
    } else {
        0
    }
}

/// The smaller of two numbers.
pub open spec fn smaller(left: int, right: int) -> int {
    if left <= right {
        left
    } else {
        right
    }
}

/// First byte of a mode; `r` where it is empty.
pub open spec fn mode_operation(mode: Seq<u8>) -> u8 {
    if mode.len() == 0 {
        0x72
    } else {
        mode[0]
    }
}

/// Whether a mode holds a plus sign.
pub open spec fn has_plus(mode: Seq<u8>) -> bool {
    exists|i: int| 0 <= i < mode.len() && #[trigger] mode[i] == 0x2b
}

/// Whether a mode opens a file for writing.
pub open spec fn mode_writable(mode: Seq<u8>) -> bool {
    mode_operation(mode) == 0x77 || mode_operation(mode) == 0x61 || has_plus(mode)
}

/// The operation that a saved file is opened with.
pub open spec fn save_operation(mode: Seq<u8>) -> u8 {
    if mode_writable(mode) {
        mode_operation(mode)
    } else {
        0x72
    }
}

/// Contents with which a saved file is opened; nothing where it is not.
pub open spec fn saved_contents(operation: u8, saved: HostRead) -> Option<Seq<u8>> {
    if operation == 0x77 {
        Some(Seq::empty())
    } else if operation == 0x61 || operation == 0x72 {
        match saved {
            HostRead::Data(data) => Some(data@),
            HostRead::NotFound => if operation == 0x61 {
                Some(Seq::empty())
            } else {
                None
            },
            HostRead::Failed => None,
        }
    } else {
        None
    }
}

/// A write of `bytes` at a position of some contents; a gap is filled with zeros.
pub open spec fn overwritten(data: Seq<u8>, position: int, bytes: Seq<u8>) -> Seq<u8> {
    let end = position + bytes.len();
    Seq::new(
        (if data.len() < end {
            end
        } else {
            data.len() as int
        }) as nat,
        |i: int|
            if position <= i < end {
                bytes[i - position]
            } else if i < data.len() {
                data[i]
            } else {
                0
            },
    )
}

/// Position of a file after a seek; nothing where the seek is not possible.
pub open spec fn seek_target(file: OpenFile, offset: i32, origin: u32) -> Option<int> {
    let base = if origin == 0 {
        Some(0int)
    } else if origin == 1 {
        Some(file.position as int)
    } else if origin == 2 {
        Some(file.data@.len() as int)
    } else {
        None
    };
    match base {
        Some(base) => if base + offset < 0 {
            None
        } else {
            Some(smaller(base + offset, file.data@.len() as int))
        },
        None => None,
    }
}

/// Bytes that the guest asks to copy out of a resource.
pub open spec fn resource_copy_size(file: OpenFile, buffer_len: u32, read_len: u32) -> int {
    let asked = if read_len != 0 && buffer_len > 1 {
        clamped_product(read_len, buffer_len)
    } else if read_len != 0 {
        read_len as int
    } else {
        buffer_len as int
    };
    if asked == 0 || asked > remaining(file) {
        remaining(file)
    } else {
        asked
    }
}

/// Whether nothing was opened.
pub open spec fn nothing_opened(before: FileTable, after: FileTable, handle: u32) -> bool {
    &&& handle == 0
    &&& after.files@ == before.files@
    &&& after.next_file_handle == before.next_file_handle
}

/// Whether a file was opened for reading, under the next handle.
pub open spec fn plainly_opened(
    before: FileTable,
    after: FileTable,
    contents: Seq<u8>,
    handle: u32,
) -> bool {
    &&& handle == before.next_file_handle
    &&& after.next_file_handle == following_handle(handle)
    &&& added(before.files@, after.files@, handle)
    &&& opened(after.files@[handle], contents)
}

/// What opening a resource of the application does.
pub open spec fn resource_opened(
    before: FileTable,
    after: FileTable,
    name: Seq<u8>,
    resource: Option<(ResourceKind, Vec<u8>)>,
    handle: u32,
) -> bool {
    match resource {
        None => nothing_opened(before, after, handle),
        Some((kind, data)) => plainly_opened(
            before,
            after,
            resource_view(name, kind, data@),
            handle,
        ),
    }
}

/// What opening a file beside the application does.
pub open spec fn host_file_opened(
    before: FileTable,
    after: FileTable,
    found: HostRead,
    handle: u32,
) -> bool {
    match found {
        HostRead::Data(data) => plainly_opened(before, after, data@, handle),
        _ => nothing_opened(before, after, handle),
    }
}

/// What opening a saved file does.
pub open spec fn save_opened(
    before: FileTable,
    after: FileTable,
    path: Option<Seq<char>>,
    operation: u8,
    writable: bool,
    saved: HostRead,
    handle: u32,
) -> bool {
    match (path, saved_contents(operation, saved)) {
        (Some(path), Some(contents)) => {
            &&& handle == before.next_file_handle
            &&& after.next_file_handle == following_handle(handle)
            &&& added(before.files@, after.files@, handle)
            &&& saved_file(after.files@[handle], contents, path, operation, writable)
        },
        _ => nothing_opened(before, after, handle),
    }
}

/// What opening a file for the guest does behind the saved ones: a resource, or else
/// a file beside the application. A handle of zero does not count as a resource.
pub open spec fn unsaved_opened(
    before: FileTable,
    after: FileTable,
    name: Seq<u8>,
    resource: Option<(ResourceKind, Vec<u8>)>,
    found: HostRead,
    handle: u32,
) -> bool {
    if resource is Some && before.next_file_handle != 0 {
        resource_opened(before, after, name, resource, handle)
    } else if resource is None {
        host_file_opened(before, after, found, handle)
    } else {
        exists|middle: FileTable|
            #[trigger] resource_opened(before, middle, name, resource, 0) && host_file_opened(
                middle,
                after,
                found,
                handle,
            )
    }
}

/// What opening a file for the guest does: a saved file, or else, unless it is to be
/// written anew, another one. A handle of zero, which only a restored table can give
/// out, does not count as a file, though it is open then.
pub open spec fn guest_file_opened(
    before: FileTable,
    after: FileTable,
    name: Seq<u8>,
    mode: Seq<u8>,
    path: Option<Seq<char>>,
    saved: HostRead,
    resource: Option<(ResourceKind, Vec<u8>)>,
    found: HostRead,
    handle: u32,
) -> bool {
    let writable = mode_writable(mode);
    let operation = save_operation(mode);
    let is_saved = path is Some && saved_contents(operation, saved) is Some;
    let is_over = writable && mode_operation(mode) != 0x72;
    if is_over || is_saved && before.next_file_handle != 0 {
        save_opened(before, after, path, operation, writable, saved, handle)
    } else if !is_saved {
        unsaved_opened(before, after, name, resource, found, handle)
    } else {
        exists|middle: FileTable|
            #[trigger] save_opened(before, middle, path, operation, writable, saved, 0)
                && unsaved_opened(middle, after, name, resource, found, handle)
    }
}

/// What reading from a file does.
pub open spec fn file_read(
    before: FileTable,
    after: FileTable,
    memory: Memory,
    memory_after: Memory,
    destination: u32,
    size: u32,
    count: u32,
    handle: u32,
    result: Result<u32, SimulatorError>,
) -> bool {
    let file = before.files@[handle];
    if !before.files@.contains_key(handle) || size == 0 || count == 0 {
        &&& result == Ok::<u32, SimulatorError>(0)
        &&& after.files@ == before.files@
        &&& memory_after@ == memory@
    } else {
        let length = read_length(file, size, count);
        let written = accessible_prefix(destination, length);
        &&& memory_after@ == put_bytes(
            memory@,
            destination,
            bytes_ahead(file, length).take(written),
        )
        &&& if written == length {
            &&& result == Ok::<u32, SimulatorError>((length / size as int) as u32)
            &&& after.files@ == before.files@.insert(
                handle,
                at_position(file, file.position + length),
            )
        } else {
            &&& result == Err::<u32, SimulatorError>(
                SimulatorError::UnmappedAddress {
                    address: destination.wrapping_add(written as u32),
                },
            )
            &&& after.files@ == before.files@
        }
    }
}

/// What writing to a file does.
pub open spec fn file_written(
    before: FileTable,
    after: FileTable,
    memory: Memory,
    source: u32,
    size: u32,
    count: u32,
    handle: u32,
    result: Result<u32, SimulatorError>,
) -> bool {
    let file = before.files@[handle];
    let length = clamped_product(size, count);
    let readable = accessible_prefix(source, length);
    let bytes = bytes_at(memory@, source, length as nat);
    if size == 0 || count == 0 {
        &&& result == Ok::<u32, SimulatorError>(0)
        &&& after.files@ == before.files@
    } else if readable < length {
        &&& result == Err::<u32, SimulatorError>(
            SimulatorError::UnmappedAddress {
                address: source.wrapping_add(readable as u32),
            },
        )
        &&& after.files@ == before.files@
    } else if !before.files@.contains_key(handle) || !file.writable || file.position
        + length > usize::MAX {
        &&& result == Ok::<u32, SimulatorError>(0)
        &&& after.files@ == before.files@
    } else {
        let written = after.files@[handle];
        &&& result == Ok::<u32, SimulatorError>(count)
        &&& added(before.files@, after.files@, handle)
        &&& written.data@ == overwritten(file.data@, file.position as int, bytes)
        &&& written.position == file.position + length
        &&& written.dirty
        &&& written.writable
        &&& written.data_ptr == file.data_ptr
        &&& written.save_path == file.save_path
    }
}

/// What reading a resource does.
pub open spec fn resource_read(
    before: FileTable,
    after: FileTable,
    memory: Memory,
    memory_after: Memory,
    handle: u32,
    buffer: u32,
    buffer_len: u32,
    read_len: u32,
    result: Result<u32, SimulatorError>,
) -> bool {
    let file = before.files@[handle];
    let size = file.data@.len() as u32;
    let pointer = allocation(memory.heap_next, size);
    let copied = resource_copy_size(file, buffer_len, read_len);
    if !before.files@.contains_key(handle) {
        &&& result == Ok::<u32, SimulatorError>(0)
        &&& after.files@ == before.files@
        &&& memory_after@ == memory@
        &&& memory_after.heap_next == memory.heap_next
    } else if buffer == 0 && file.data_ptr != 0 {
        &&& result == Ok::<u32, SimulatorError>(file.data_ptr)
        &&& after.files@ == before.files@
        &&& memory_after@ == memory@
        &&& memory_after.heap_next == memory.heap_next
    } else if buffer == 0 {
        let written = accessible_prefix(pointer, file.data@.len() as int);
        &&& memory_after.heap_next == heap_after(memory.heap_next, size)
        &&& if pointer == 0 {
            &&& result == Ok::<u32, SimulatorError>(0)
            &&& after.files@ == before.files@
            &&& memory_after@ == memory@
        } else {
            &&& memory_after@ == put_bytes(
                memory@,
                pointer,
                file.data@.take(written),
            )
            &&& if written == file.data@.len() {
                &&& result == Ok::<u32, SimulatorError>(pointer)
                &&& after.files@ == before.files@.insert(
                    handle,
                    OpenFile { data_ptr: pointer, ..file },
                )
            } else {
                &&& result == Err::<u32, SimulatorError>(
                    SimulatorError::UnmappedAddress {
                        address: pointer.wrapping_add(written as u32),
                    },
                )
                &&& after.files@ == before.files@
            }
        }
    } else {
        let written = accessible_prefix(buffer, copied);
        &&& memory_after.heap_next == memory.heap_next
        &&& memory_after@ == put_bytes(
            memory@,
            buffer,
            bytes_ahead(file, copied).take(written),
        )
        &&& if written == copied {
            &&& result == Ok::<u32, SimulatorError>(
                if read_len != 0 {
                    (copied / read_len as int) as u32
                } else {
                    copied as u32
                },
            )
            &&& after.files@ == before.files@.insert(
                handle,
                at_position(file, file.position + copied),
            )
        } else {
            &&& result == Err::<u32, SimulatorError>(
                SimulatorError::UnmappedAddress {
                    address: buffer.wrapping_add(written as u32),
                },
            )
            &&& after.files@ == before.files@
        }
    }
}

/// What moving the position of a file does.
pub open spec fn file_sought(
    before: FileTable,
    after: FileTable,
    handle: u32,
    offset: i32,
    origin: u32,
    result: u32,
) -> bool {
    let file = before.files@[handle];
    match seek_target(file, offset, origin) {
        Some(position) => if before.files@.contains_key(handle) {
            &&& result == 0
            &&& after.files@ == before.files@.insert(
                handle,
                at_position(file, position),
            )
        } else {
            &&& result == u32::MAX
            &&& after.files@ == before.files@
        },
        None => {
            &&& result == u32::MAX
            &&& after.files@ == before.files@
        },
    }
}

impl FileTable {
    /// Every open file has a handle in the list, and no handle occurs twice.
    pub open spec fn wf(&self) -> bool {
        &&& self.handles@.no_duplicates()
        &&& forall|handle: u32| #[trigger]
            self.files@.contains_key(handle) <==> self.handles@.contains(handle)
    }

    /// No open file.
    pub fn new() -> (table: FileTable)
        ensures
            table.wf(),
            table.files@ == Map::<u32, OpenFile>::empty(),
            table.next_file_handle == 1,
    {
        FileTable { files: HashMap::new(), handles: Vec::new(), next_file_handle: 1 }
    }

    /// Puts a file under a handle, in place of the one that was there.
    pub fn put(&mut self, handle: u32, file: OpenFile)
        requires
            old(self).wf(),
        ensures
            final(self).wf(),
            final(self).files@ == old(self).files@.insert(handle, file),
            final(self).next_file_handle == old(self).next_file_handle,
    {
        if !self.files.contains_key(&handle) {
            self.handles.push(handle);
            assert forall|other: u32| #[trigger]
                self.handles@.contains(other) <==> (old(self).handles@.contains(other) || other
                    == handle) by {
                if old(self).handles@.contains(other) {
                    let i = choose|i: int|
                        0 <= i < old(self).handles@.len() && old(self).handles@[i] == other;
                    assert(self.handles@[i] == other);
                }
                if other == handle {
                    assert(self.handles@[old(self).handles@.len() as int] == handle);
                }
            }
        }
        let _ = self.files.insert(handle, file);
    }

    /// Adds a file. Returns its handle.
    pub fn add_file(&mut self, file: OpenFile) -> (handle: u32)
        requires
            old(self).wf(),
        ensures
            final(self).wf(),
            handle == old(self).next_file_handle,
            final(self).next_file_handle == following_handle(old(self).next_file_handle),
            final(self).files@ == old(self).files@.insert(handle, file),
    {
        let handle: u32 = self.next_file_handle;
        self.put(handle, file);
        self.next_file_handle = if handle == u32::MAX {
            1
        } else {
            handle + 1
        };
        handle
    }

    /// Opens a resource, where there is one. Returns its handle, or zero.
    pub fn open_resource_file(
        &mut self,
        name: &str,
        resource: Option<(ResourceKind, Vec<u8>)>,
    ) -> (handle: u32)
        requires
            old(self).wf(),
        ensures
            final(self).wf(),
            resource_opened(*old(self), *final(self), name.spec_bytes(), resource, handle),
    {
        match resource {
            None => 0,
            Some((kind, data)) => {
                let data: Vec<u8> = prepare_resource_file_data(name, kind, data);
                self.open_read_only(data)
            },
        }
    }

    fn open_read_only(&mut self, data: Vec<u8>) -> (handle: u32)
        requires
            old(self).wf(),
        ensures
            final(self).wf(),
            plainly_opened(*old(self), *final(self), data@, handle),
    {
        let file = OpenFile {
            data,
            position: 0,
            data_ptr: 0,
            save_path: None,
            writable: false,
            dirty: false,
        };
        assert(opened(file, data@));
        self.add_file(file)
    }

    /// Opens a file beside the application, where the host found one. Returns its
    /// handle, or zero.
    pub fn open_host_file(&mut self, found: HostRead) -> (handle: u32)
        requires
            old(self).wf(),
        ensures
            final(self).wf(),
            host_file_opened(*old(self), *final(self), found, handle),
    {
        match found {
            HostRead::Data(data) => self.open_read_only(data),
            _ => 0,
        }
    }

    /// Opens a file that is saved on the host, with contents that it has there.
    pub fn open_memory_file(
        &mut self,
        data: Vec<u8>,
        save_path: String,
        append: bool,
        writable: bool,
        dirty: bool,
    ) -> (handle: u32)
        requires
            old(self).wf(),
        ensures
            final(self).wf(),
            handle == old(self).next_file_handle,
            final(self).next_file_handle == following_handle(handle),
            final(self).files@ == old(self).files@.insert(
                handle,
                OpenFile {
                    data,
                    position: if append {
                        data@.len() as usize
                    } else {
                        0
                    },
                    data_ptr: 0,
                    save_path: Some(save_path),
                    writable,
                    dirty,
                },
            ),
    {
        let position: usize = if append {
            data.len()
        } else {
            0
        };
        self.add_file(
            OpenFile { data, position, data_ptr: 0, save_path: Some(save_path), writable, dirty },
        )
    }

    /// Opens a saved file at a path, where the name was accepted and the host has
    /// what the operation needs. Returns its handle, or zero.
    pub fn open_save_file(
        &mut self,
        path: Option<String>,
        operation: u8,
        writable: bool,
        saved: HostRead,
    ) -> (handle: u32)
        requires
            old(self).wf(),
        ensures
            final(self).wf(),
            save_opened(
                *old(self),
                *final(self),
                text_view(path),
                operation,
                writable,
                saved,
                handle,
            ),
            path is Some && operation == 0x77 ==> {
                &&& final(self).files@.contains_key(handle)
                &&& final(self).files@[handle].data@.len() == 0
                &&& final(self).files@[handle].position == 0
            },
    {
        let path = match path {
            Some(path) => path,
            None => {
                return 0;
            },
        };
        let data: Vec<u8> = if operation == 0x77 {
            Vec::new()
        } else if operation == 0x61 || operation == 0x72 {
            match saved {
                HostRead::Data(data) => data,
                HostRead::NotFound => {
                    if operation != 0x61 {
                        return 0;
                    }
                    Vec::new()
                },
                HostRead::Failed => {
                    return 0;
                },
            }
        } else {
            return 0;
        };
        let append: bool = operation == 0x61;
        let dirty: bool = writable && operation != 0x72;
        let ghost file = OpenFile {
            data,
            position: if append {
                data@.len() as usize
            } else {
                0
            },
            data_ptr: 0,
            save_path: Some(path),
            writable,
            dirty,
        };
        assert(data@ =~= saved_contents(operation, saved)->0);
        assert(saved_file(file, data@, path@, operation, writable));
        self.open_memory_file(data, path, append, writable, dirty)
    }

    /// First stage of opening a guest file: the saved one.
    pub fn open_guest_save(
        &mut self,
        mode: &str,
        path: Option<String>,
        saved: HostRead,
    ) -> (outcome: GuestOpen)
        requires
            old(self).wf(),
        ensures
            final(self).wf(),
            ({
                let bytes = mode.spec_bytes();
                let handle = match outcome {
                    GuestOpen::Opened(handle) => handle,
                    _ => 0,
                };
                &&& save_opened(
                    *old(self),
                    *final(self),
                    text_view(path),
                    save_operation(bytes),
                    mode_writable(bytes),
                    saved,
                    handle,
                )
                &&& outcome == if handle != 0 {
                    GuestOpen::Opened(handle)
                } else if mode_writable(bytes) && mode_operation(bytes) != 0x72 {
                    GuestOpen::Refused
                } else {
                    GuestOpen::Continue
                }
            }),
    {
        let bytes = mode.as_bytes();
        let operation: u8 = if bytes.len() == 0 {
            0x72
        } else {
            bytes[0]
        };
        let writable: bool = operation == 0x77 || operation == 0x61 || contains_plus(bytes);
        let handle: u32 = self.open_save_file(
            path,
            if writable {
                operation
            } else {
                0x72
            },
            writable,
            saved,
        );
        if handle != 0 {
            GuestOpen::Opened(handle)
        } else if writable && operation != 0x72 {
            GuestOpen::Refused
        } else {
            GuestOpen::Continue
        }
    }

    /// Opens a guest file: the saved one, a resource, or the one beside the
    /// application. Returns its handle, or zero.
    pub fn open_guest_file(
        &mut self,
        name: &str,
        mode: &str,
        path: Option<String>,
        saved: HostRead,
        resource: Option<(ResourceKind, Vec<u8>)>,
        found: HostRead,
    ) -> (handle: u32)
        requires
            old(self).wf(),
        ensures
            final(self).wf(),
            guest_file_opened(
                *old(self),
                *final(self),
                name.spec_bytes(),
                mode.spec_bytes(),
                text_view(path),
                saved,
                resource,
                found,
                handle,
            ),
    {
        let ghost before = *self;
        let ghost saved_path = text_view(path);
        match self.open_guest_save(mode, path, saved) {
            GuestOpen::Opened(handle) => {
                return handle;
            },
            GuestOpen::Refused => {
                return 0;
            },
            GuestOpen::Continue => {},
        }
        let ghost unsaved = *self;
        let first: u32 = self.open_resource_file(name, resource);
        let ghost middle = *self;
        let handle: u32 = if first != 0 {
            first
        } else {
            self.open_host_file(found)
        };
        proof {
            let bytes = name.spec_bytes();
            assert(resource_opened(unsaved, middle, bytes, resource, first));
            assert(unsaved_opened(unsaved, *self, bytes, resource, found, handle));
            if unsaved.files@ == before.files@ && unsaved.next_file_handle
                == before.next_file_handle {
                assert(resource_opened(before, middle, bytes, resource, first));
                assert(unsaved_opened(before, *self, bytes, resource, found, handle));
            }
            let mode_bytes = mode.spec_bytes();
            assert(save_opened(
                before,
                unsaved,
                saved_path,
                save_operation(mode_bytes),
                mode_writable(mode_bytes),
                saved,
                0,
            ));
        }
        handle
    }
}

/// Whether a file was added, or replaced, under a handle and nothing else changed.
pub open spec fn added(
    before: Map<u32, OpenFile>,
    after: Map<u32, OpenFile>,
    handle: u32,
) -> bool {
    after == before.insert(handle, after[handle])
}

/// A file that was just opened for reading.
pub open spec fn opened(file: OpenFile, contents: Seq<u8>) -> bool {
    &&& file.data@ == contents
    &&& file.position == 0
    &&& file.data_ptr == 0
    &&& file.save_path is None
    &&& !file.writable
    &&& !file.dirty
}

/// A saved file that was just opened.
pub open spec fn saved_file(
    file: OpenFile,
    contents: Seq<u8>,
    path: Seq<char>,
    operation: u8,
    writable: bool,
) -> bool {
    &&& file.data@ == contents
    &&& file.position == if operation == 0x61 {
        contents.len() as usize
    } else {
        0
    }
    &&& file.data_ptr == 0
    &&& file.save_path matches Some(saved) && saved@ == path
    &&& file.writable == writable
    &&& file.dirty == (writable && operation != 0x72)
}

fn contains_plus(mode: &[u8]) -> (result: bool)
    ensures
        result == has_plus(mode@),
{
    let mut index: usize = 0;
    while index < mode.len()
        invariant
            index <= mode@.len(),
            forall|i: int| 0 <= i < index ==> #[trigger] mode@[i] != 0x2b,
        decreases mode@.len() - index,
    {
        if mode[index] == 0x2b {
            return true;
        }
        index = index + 1;
    }
    false
}

/// A file at another position.
pub open spec fn at_position(file: OpenFile, position: int) -> OpenFile {
    OpenFile { position: position as usize, ..file }
}

/// Bytes that a read of `size` times `count` copies.
pub open spec fn read_length(file: OpenFile, size: u32, count: u32) -> int {
    smaller(clamped_product(size, count), remaining(file))
}

/// The bytes of a file from its position on.
pub open spec fn bytes_ahead(file: OpenFile, length: int) -> Seq<u8> {
    file.data@.subrange(file.position as int, file.position + length)
}

impl FileTable {
    fn take(&mut self, handle: u32) -> (file: Option<OpenFile>)
        requires
            old(self).wf(),
        ensures
            final(self).next_file_handle == old(self).next_file_handle,
            final(self).handles@ == old(self).handles@,
            final(self).files@ == old(self).files@.remove(handle),
            match file {
                Some(file) => old(self).files@.contains_key(handle) && file
                    == old(self).files@[handle],
                None => !old(self).files@.contains_key(handle) && final(self).files@
                    == old(self).files@,
            },
    {
        let ghost before = self.files@;
        let file = self.files.remove(&handle);
        if file.is_none() {
            assert(self.files@ =~= before);
        }
        file
    }

    fn put_back(&mut self, handle: u32, file: OpenFile, Ghost(before): Ghost<FileTable>)
        requires
            before.wf(),
            before.files@.contains_key(handle),
            old(self).handles@ == before.handles@,
            old(self).next_file_handle == before.next_file_handle,
            old(self).files@ == before.files@.remove(handle),
        ensures
            final(self).wf(),
            final(self).files@ == before.files@.insert(handle, file),
            final(self).next_file_handle == before.next_file_handle,
    {
        let _ = self.files.insert(handle, file);
        assert(self.files@ =~= before.files@.insert(handle, file));
    }

    /// Reads from a file into guest memory. Returns the number of whole items.
    pub fn read_file(
        &mut self,
        memory: &mut Memory,
        destination: u32,
        size: u32,
        count: u32,
        handle: u32,
    ) -> (result: Result<u32, SimulatorError>)
        requires
            old(self).wf(),
        ensures
            final(self).wf(),
            final(self).next_file_handle == old(self).next_file_handle,
            final(memory).heap_next == old(memory).heap_next,
            old(memory).wf() ==> final(memory).wf(),
            file_read(
                *old(self),
                *final(self),
                *old(memory),
                *final(memory),
                destination,
                size,
                count,
                handle,
                result,
            ),
    {
        let ghost before = *self;
        if size == 0 || count == 0 {
            return Ok(0);
        }
        let mut file = match self.take(handle) {
            Some(file) => file,
            None => {
                return Ok(0);
            },
        };
        let requested: usize = clamped(size, count);
        let length_total: usize = file.data.len();
        let available: usize = if file.position <= length_total {
            length_total - file.position
        } else {
            0
        };
        let length: usize = if requested <= available {
            requested
        } else {
            available
        };
        proof {
            lemma_product_positive(size, count);
        }
        if length == 0 {
            assert(put_bytes(memory@, destination, bytes_ahead(file, 0).take(0)) == memory@);
            self.put_back(handle, file, Ghost(before));
            assert(self.files@ =~= before.files@);
            assert(at_position(file, file.position + 0) == file);
            return Ok(0);
        }
        let part = vstd::slice::slice_subrange(
            file.data.as_slice(),
            file.position,
            file.position + length,
        );
        assert(part@ =~= bytes_ahead(file, length as int));
        match memory.load_data(destination, part) {
            Ok(_) => {
                file.position = file.position + length;
                self.put_back(handle, file, Ghost(before));
                Ok((length as u64 / size as u64) as u32)
            },
            Err(error) => {
                self.put_back(handle, file, Ghost(before));
                assert(self.files@ =~= before.files@);
                Err(error)
            },
        }
    }

    /// Writes guest memory to a file. Returns the number of items, or zero where
    /// the file cannot be written.
    pub fn write_file(
        &mut self,
        memory: &Memory,
        source: u32,
        size: u32,
        count: u32,
        handle: u32,
    ) -> (result: Result<u32, SimulatorError>)
        requires
            old(self).wf(),
        ensures
            final(self).wf(),
            final(self).next_file_handle == old(self).next_file_handle,
            file_written(*old(self), *final(self), *memory, source, size, count, handle, result),
    {
        let ghost before = *self;
        if size == 0 || count == 0 {
            return Ok(0);
        }
        proof {
            lemma_product_positive(size, count);
        }
        let requested: usize = clamped(size, count);
        let bytes: Vec<u8> = match memory.read_bytes(source, requested) {
            Ok(bytes) => bytes,
            Err(error) => {
                return Err(error);
            },
        };
        let mut file = match self.take(handle) {
            Some(file) => file,
            None => {
                return Ok(0);
            },
        };
        let ghost original = file;
        if !file.writable || requested > usize::MAX - file.position {
            self.put_back(handle, file, Ghost(before));
            assert(self.files@ =~= before.files@);
            return Ok(0);
        }
        let end: usize = file.position + requested;
        if file.data.len() < end {
            file.data.resize(end, 0);
        }
        let mut index: usize = 0;
        while index < requested
            invariant
                index <= requested,
                requested == bytes@.len(),
                end == file.position + requested,
                end <= file.data@.len(),
                file.data@.len() == if original.data@.len() < end {
                    end as nat
                } else {
                    original.data@.len()
                },
                file.position == original.position,
                file.data_ptr == original.data_ptr,
                file.save_path == original.save_path,
                file.writable == original.writable,
                forall|i: int|
                    0 <= i < file.data@.len() ==> #[trigger] file.data@[i] == (if file.position <= i
                        < file.position + index {
                        bytes@[i - file.position]
                    } else if i < original.data@.len() {
                        original.data@[i]
                    } else {
                        0
                    }),
            decreases requested - index,
        {
            file.data.set(file.position + index, bytes[index]);
            index = index + 1;
        }
        assert(file.data@ =~= overwritten(original.data@, original.position as int, bytes@));
        file.position = end;
        file.dirty = true;
        self.put_back(handle, file, Ghost(before));
        Ok(count)
    }

    /// Copies a resource to guest memory: the whole of it to a new allocation
    /// where there is no buffer, else the part ahead of the position. Returns an
    /// address in the first case, and the number of items or bytes in the second.
    pub fn read_resource_data(
        &mut self,
        memory: &mut Memory,
        handle: u32,
        buffer: u32,
        buffer_len: u32,
        read_len: u32,
    ) -> (result: Result<u32, SimulatorError>)
        requires
            old(self).wf(),
            old(memory).wf(),
        ensures
            final(self).wf(),
            final(memory).wf(),
            final(self).next_file_handle == old(self).next_file_handle,
            resource_read(
                *old(self),
                *final(self),
                *old(memory),
                *final(memory),
                handle,
                buffer,
                buffer_len,
                read_len,
                result,
            ),
    {
        let ghost before = *self;
        let mut file = match self.take(handle) {
            Some(file) => file,
            None => {
                return Ok(0);
            },
        };
        if buffer == 0 {
            if file.data_ptr != 0 {
                let pointer: u32 = file.data_ptr;
                self.put_back(handle, file, Ghost(before));
                assert(self.files@ =~= before.files@);
                return Ok(pointer);
            }
            let pointer: u32 = memory.malloc(file.data.len() as u32);
            if pointer == 0 {
                self.put_back(handle, file, Ghost(before));
                assert(self.files@ =~= before.files@);
                return Ok(0);
            }
            let written = memory.load_data(pointer, file.data.as_slice());
            match written {
                Ok(_) => {
                    file.data_ptr = pointer;
                    self.put_back(handle, file, Ghost(before));
                    return Ok(pointer);
                },
                Err(error) => {
                    self.put_back(handle, file, Ghost(before));
                    assert(self.files@ =~= before.files@);
                    return Err(error);
                },
            }
        }
        let length_total: usize = file.data.len();
        let available: usize = if file.position <= length_total {
            length_total - file.position
        } else {
            0
        };
        let asked: usize = if read_len != 0 && buffer_len > 1 {
            clamped(read_len, buffer_len)
        } else if read_len != 0 {
            read_len as usize
        } else {
            buffer_len as usize
        };
        let copied: usize = if asked == 0 || asked > available {
            available
        } else {
            asked
        };
        if copied == 0 {
            assert(put_bytes(memory@, buffer, bytes_ahead(file, 0).take(0)) == memory@);
            self.put_back(handle, file, Ghost(before));
            assert(self.files@ =~= before.files@);
            assert(at_position(file, file.position + 0) == file);
            proof {
                if read_len != 0 {
                    assert(0int / read_len as int == 0) by (nonlinear_arith)
                        requires
                            read_len != 0,
                    ;
                }
            }
            return Ok(0);
        }
        let part = vstd::slice::slice_subrange(
            file.data.as_slice(),
            file.position,
            file.position + copied,
        );
        assert(part@ =~= bytes_ahead(file, copied as int));
        match memory.load_data(buffer, part) {
            Ok(_) => {
                file.position = file.position + copied;
                self.put_back(handle, file, Ghost(before));
                if read_len != 0 {
                    Ok((copied as u64 / read_len as u64) as u32)
                } else {
                    Ok(copied as u32)
                }
            },
            Err(error) => {
                self.put_back(handle, file, Ghost(before));
                assert(self.files@ =~= before.files@);
                Err(error)
            },
        }
    }

    /// Moves the position of a file. Returns zero, or all ones where that is not possible.
    pub fn seek_file(&mut self, handle: u32, offset: i32, origin: u32) -> (result: u32)
        requires
            old(self).wf(),
        ensures
            final(self).wf(),
            final(self).next_file_handle == old(self).next_file_handle,
            file_sought(*old(self), *final(self), handle, offset, origin, result),
    {
        let ghost before = *self;
        let mut file = match self.take(handle) {
            Some(file) => file,
            None => {
                return u32::MAX;
            },
        };
        let length: usize = file.data.len();
        let base: i128 = if origin == 0 {
            0
        } else if origin == 1 {
            file.position as i128
        } else if origin == 2 {
            length as i128
        } else {
            -1
        };
        let next: i128 = base + offset as i128;
        if origin > 2 || next < 0 {
            self.put_back(handle, file, Ghost(before));
            assert(self.files@ =~= before.files@);
            return u32::MAX;
        }
        file.position = if next <= length as i128 {
            next as usize
        } else {
            length
        };
        self.put_back(handle, file, Ghost(before));
        0
    }

    /// Size of an open file; zero where there is none.
    pub fn file_size(&self, handle: u32) -> (size: u32)
        ensures
            size == if self.files@.contains_key(handle) {
                self.files@[handle].data@.len() as u32
            } else {
                0
            },
    {
        match self.files.get(&handle) {
            Some(file) => file.data.len() as u32,
            None => 0,
        }
    }

    /// Position of an open file; all ones where there is none.
    pub fn file_position(&self, handle: u32) -> (position: u32)
        ensures
            position == if self.files@.contains_key(handle) {
                self.files@[handle].position as u32
            } else {
                u32::MAX
            },
    {
        match self.files.get(&handle) {
            Some(file) => file.position as u32,
            None => u32::MAX,
        }
    }

    /// One at the end of an open file and where there is none; else zero.
    pub fn end_of_file(&self, handle: u32) -> (end: u32)
        ensures
            end == if self.files@.contains_key(handle) && self.files@[handle].position
                < self.files@[handle].data@.len() {
                0u32
            } else {
                1u32
            },
    {
        match self.files.get(&handle) {
            Some(file) => if file.position < file.data.len() {
                0
            } else {
                1
            },
            None => 1,
        }
    }

    /// Closes a file.
    pub fn close_file(&mut self, handle: u32)
        requires
            old(self).wf(),
        ensures
            final(self).wf(),
            final(self).files@ == old(self).files@.remove(handle),
            final(self).next_file_handle == old(self).next_file_handle,
    {
        let _ = self.files.remove(&handle);
        let mut index: usize = 0;
        while index < self.handles.len() && self.handles[index] != handle
            invariant
                index <= self.handles@.len(),
                self.handles@ == old(self).handles@,
                self.next_file_handle == old(self).next_file_handle,
                self.files@ == old(self).files@.remove(handle),
                forall|i: int| 0 <= i < index ==> self.handles@[i] != handle,
            decreases self.handles@.len() - index,
        {
            index = index + 1;
        }
        let ghost before = self.handles@;
        if index < self.handles.len() {
            let _ = self.handles.remove(index);
            assert(self.handles@ =~= before.remove(index as int));
        }
        proof {
            let after = self.handles@;
            assert forall|other: u32| #[trigger]
                after.contains(other) <==> before.contains(other) && other != handle by {
                if after.contains(other) {
                    let i = choose|i: int| 0 <= i < after.len() && after[i] == other;
                    if index < before.len() {
                        if i < index {
                            assert(before[i] == other);
                        } else {
                            assert(before[i + 1] == other);
                            assert(before[i + 1] != before[index as int]);
                        }
                    } else {
                        assert(before[i] == other);
                    }
                }
                if before.contains(other) && other != handle {
                    let i = choose|i: int| 0 <= i < before.len() && before[i] == other;
                    if index < before.len() && i > index {
                        assert(after[i - 1] == other);
                    } else {
                        assert(after[i] == other);
                    }
                }
            }
            assert forall|handle: u32| #[trigger]
                self.files@.contains_key(handle) <==> after.contains(handle) by {
                assert(old(self).files@.contains_key(handle) <==> before.contains(handle));
            }
        }
    }

    /// Whether a file has to be written to the host.
    pub open spec fn needs_flush(&self, handle: u32) -> bool {
        &&& self.files@.contains_key(handle)
        &&& self.files@[handle].dirty
        &&& self.files@[handle].save_path is Some
    }

    /// What the host has to write for a file: where, and which contents.
    pub fn flush_request(&self, handle: u32) -> (request: Option<(&String, &Vec<u8>)>)
        ensures
            request is Some <==> self.needs_flush(handle),
            request matches Some((path, data)) ==> Some(*path)
                == self.files@[handle].save_path && *data == self.files@[handle].data,
    {
        match self.files.get(&handle) {
            Some(file) => {
                if !file.dirty {
                    return None;
                }
                match &file.save_path {
                    Some(path) => Some((path, &file.data)),
                    None => None,
                }
            },
            None => None,
        }
    }

    /// The files that are to be saved, oldest first.
    pub fn flush_save_files(&self) -> (handles: Vec<u32>)
        ensures
            handles@ == self.handles@.filter(|handle: u32| self.needs_flush(handle)),
    {
        let mut unsaved: Vec<u32> = Vec::new();
        let mut index: usize = 0;
        let ghost changed = |handle: u32| self.needs_flush(handle);
        proof {
            assert(self.handles@.take(0).filter(changed) =~= Seq::<u32>::empty()) by {
                reveal(Seq::filter);
            }
        }
        while index < self.handles.len()
            invariant
                index <= self.handles@.len(),
                changed == (|handle: u32| self.needs_flush(handle)),
                unsaved@ == self.handles@.take(index as int).filter(changed),
            decreases self.handles@.len() - index,
        {
            let handle: u32 = self.handles[index];
            proof {
                reveal(Seq::filter);
                assert(self.handles@.take(index + 1).drop_last() =~= self.handles@.take(
                    index as int,
                ));
                assert(self.handles@.take(index + 1).last() == handle);
            }
            if self.flush_request(handle).is_some() {
                unsaved.push(handle);
            }
            index = index + 1;
        }
        assert(self.handles@.take(index as int) =~= self.handles@);
        unsaved
    }

    /// Takes note that the host has written a file.
    pub fn file_flushed(&mut self, handle: u32)
        requires
            old(self).wf(),
        ensures
            final(self).wf(),
            final(self).next_file_handle == old(self).next_file_handle,
            final(self).files@ == if old(self).needs_flush(handle) {
                old(self).files@.insert(
                    handle,
                    OpenFile { dirty: false, ..old(self).files@[handle] },
                )
            } else {
                old(self).files@
            },
            !final(self).needs_flush(handle),
    {
        if self.flush_request(handle).is_none() {
            return ;
        }
        let ghost before = *self;
        if let Some(mut file) = self.take(handle) {
            file.dirty = false;
            self.put_back(handle, file, Ghost(before));
        }
    }
}

fn clamped(left: u32, right: u32) -> (product: usize)
    ensures
        product == clamped_product(left, right),
{
    proof {
        lemma_product_bound(left, right);
    }
    let product: u64 = left as u64 * right as u64;
    if product > usize::MAX as u64 {
        usize::MAX
    } else {
        product as usize
    }
}

proof fn lemma_product_bound(left: u32, right: u32)
    by (nonlinear_arith)
    ensures
        0 <= left * right <= 0xffff_ffff * 0xffff_ffff,
{
}

proof fn lemma_product_positive(left: u32, right: u32)
    by (nonlinear_arith)
    requires
        left > 0,
        right > 0,
    ensures
        left * right > 0,
{
}

/// What was written to a file is read back from where the write started.
pub proof fn law_read_returns_written(data: Seq<u8>, position: int, bytes: Seq<u8>)
    requires
        0 <= position,
    ensures
        ({
            let after = overwritten(data, position, bytes);
            &&& after.len() >= position + bytes.len()
            &&& after.subrange(position, position + bytes.len()) == bytes
            &&& forall|i: int|
                0 <= i < data.len() && !(position <= i < position + bytes.len())
                    ==> #[trigger] after[i] == data[i]
        }),
{
    let after = overwritten(data, position, bytes);
    assert(after.subrange(position, position + bytes.len()) =~= bytes);
}

} // verus!
