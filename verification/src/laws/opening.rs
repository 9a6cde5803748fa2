//! What open files hold.

use crate::app_image::ResourceKind;
use crate::error::SimulatorError;
use crate::files::{
    bytes_ahead, file_read, file_sought, file_written, guest_file_opened, read_length,
    resource_copy_size, resource_opened, resource_read, save_opened, unsaved_opened, FileTable,
    HostRead, OpenFile,
};
use crate::laws::blocks::{
    behind, law_blocks_are_read, law_blocks_are_written, law_heap_blocks_are_apart, lemma_run,
    lies_at,
};
use crate::laws::calls::{first_gap, lemma_first_gap};
use crate::laws::places::{cell, same_besides, spot, together};
use crate::memory::{allocation, put_bytes, Memory};
use vstd::prelude::*;

verus! {

/// Whether nothing was opened or closed.
pub open spec fn unopened(before: FileTable, after: FileTable, handle: u32) -> bool {
    &&& handle == 0
    &&& after.next_file_handle == before.next_file_handle
    &&& forall|other: u32|
        #![trigger after.files@.contains_key(other)]
        #![trigger after.files@[other]]
        (after.files@.contains_key(other) <==> before.files@.contains_key(other))
            && after.files@[other] == before.files@[other]
}

/// Whether one file was opened, under the handle whose turn it was, and all others are
/// as they were.
pub open spec fn one_opened(before: FileTable, after: FileTable, handle: u32) -> bool {
    &&& handle == before.next_file_handle
    &&& handle < 0xffff_ffff ==> after.next_file_handle == handle + 1
    &&& handle == 0xffff_ffff ==> after.next_file_handle == 1
    &&& after.files@.contains_key(handle)
    &&& after.files@[handle].data_ptr == 0
    &&& forall|other: u32|
        #![trigger after.files@.contains_key(other)]
        #![trigger after.files@[other]]
        other != handle ==> (after.files@.contains_key(other) <==> before.files@.contains_key(
            other,
        )) && after.files@[other] == before.files@[other]
}

/// Whether a file has some contents and stands at a position of them.
pub open spec fn holds(file: OpenFile, contents: Seq<u8>, position: int) -> bool {
    &&& file.data@.len() == contents.len()
    &&& forall|i: int| 0 <= i < contents.len() ==> #[trigger] file.data@[i] == contents[i]
    &&& file.position == position
}

/// Whether a file is kept at a path of the host.
pub open spec fn kept_at(file: OpenFile, path: Seq<char>, writable: bool, dirty: bool) -> bool {
    &&& file.save_path matches Some(at) && at@ == path
    &&& file.writable == writable
    &&& file.dirty == dirty
}

/// Whether a file is one to read alone, which is not saved.
pub open spec fn only_to_read(file: OpenFile) -> bool {
    file.save_path is None && !file.writable && !file.dirty
}

/// A saved file is opened to be written anew, `w`, with nothing in it, whatever the host
/// found; to be added to, `a`, behind what the host found, or empty where it found
/// nothing; and to be read, `r`, at the beginning of what it found. It is opened in no
/// other case.
pub proof fn law_saved_files_are_opened(
    before: FileTable,
    after: FileTable,
    path: Option<Seq<char>>,
    operation: u8,
    writable: bool,
    saved: HostRead,
    handle: u32,
)
    requires
        save_opened(before, after, path, operation, writable, saved, handle),
    ensures
        path is None ==> unopened(before, after, handle),
        path matches Some(path) ==> operation as char == 'w' ==> {
            let file = after.files@[handle];
            &&& one_opened(before, after, handle)
            &&& file.data@.len() == 0
            &&& file.position == 0
            &&& kept_at(file, path, writable, writable)
        },
        path matches Some(path) ==> operation as char == 'a' ==> match saved {
            HostRead::Data(data) => {
                let file = after.files@[handle];
                &&& one_opened(before, after, handle)
                &&& holds(file, data@, data@.len() as int)
                &&& kept_at(file, path, writable, writable)
            },
            HostRead::NotFound => {
                let file = after.files@[handle];
                &&& one_opened(before, after, handle)
                &&& holds(file, seq![], 0)
                &&& kept_at(file, path, writable, writable)
            },
            HostRead::Failed => unopened(before, after, handle),
        },
        path matches Some(path) ==> operation as char == 'r' ==> match saved {
            HostRead::Data(data) => {
                let file = after.files@[handle];
                &&& one_opened(before, after, handle)
                &&& holds(file, data@, 0)
                &&& kept_at(file, path, writable, false)
            },
            _ => unopened(before, after, handle),
        },
        operation as char != 'w' && operation as char != 'a' && operation as char != 'r'
            ==> unopened(before, after, handle),
{
    let file = after.files@[handle];
    match saved {
        HostRead::Data(data) => {
            assert(data@.len() == data.len());
        },
        _ => {},
    }
}

/// A file beside the application and one of its resources are opened to be read, at their
/// beginning, and a resource comes first.
pub proof fn law_other_files_are_opened(
    before: FileTable,
    after: FileTable,
    name: Seq<u8>,
    resource: Option<(ResourceKind, Vec<u8>)>,
    found: HostRead,
    handle: u32,
)
    requires
        unsaved_opened(before, after, name, resource, found, handle),
        before.next_file_handle != 0,
    ensures
        resource is Some ==> {
            &&& one_opened(before, after, handle)
            &&& resource_opened(before, after, name, resource, handle)
            &&& after.files@[handle].position == 0
            &&& only_to_read(after.files@[handle])
        },
        resource is None ==> match found {
            HostRead::Data(data) => {
                &&& one_opened(before, after, handle)
                &&& holds(after.files@[handle], data@, 0)
                &&& only_to_read(after.files@[handle])
            },
            _ => unopened(before, after, handle),
        },
{
}

/// A mode that begins with `w` opens an empty file, whatever there was; one with `a` adds
/// to the saved file; each can be written and is refused where the name cannot be saved.
pub proof fn law_files_are_opened_to_be_written(
    before: FileTable,
    after: FileTable,
    name: Seq<u8>,
    mode: Seq<u8>,
    path: Option<Seq<char>>,
    saved: HostRead,
    resource: Option<(ResourceKind, Vec<u8>)>,
    found: HostRead,
    handle: u32,
)
    requires
        guest_file_opened(before, after, name, mode, path, saved, resource, found, handle),
        mode.len() > 0,
    ensures
        mode[0] as char == 'w' ==> match path {
            Some(path) => {
                let file = after.files@[handle];
                &&& one_opened(before, after, handle)
                &&& file.data@.len() == 0
                &&& file.position == 0
                &&& kept_at(file, path, true, true)
            },
            None => unopened(before, after, handle),
        },
        mode[0] as char == 'a' ==> match path {
            Some(path) => match saved {
                HostRead::Data(data) => {
                    &&& one_opened(before, after, handle)
                    &&& holds(after.files@[handle], data@, data@.len() as int)
                    &&& kept_at(after.files@[handle], path, true, true)
                },
                HostRead::NotFound => {
                    &&& one_opened(before, after, handle)
                    &&& holds(after.files@[handle], seq![], 0)
                    &&& kept_at(after.files@[handle], path, true, true)
                },
                HostRead::Failed => unopened(before, after, handle),
            },
            None => unopened(before, after, handle),
        },
        mode[0] as char != 'w' && mode[0] as char != 'a' && mode[0] as char != 'r' && mode.contains(
            '+' as u8,
        ) ==> unopened(before, after, handle),
{
    if mode[0] as char == 'w' || mode[0] as char == 'a' {
        law_saved_files_are_opened(before, after, path, mode[0], true, saved, handle);
    } else if mode[0] as char != 'r' && mode.contains('+' as u8) {
        let i = choose|i: int| 0 <= i < mode.len() && mode[i] == '+' as u8;
        assert(mode[i] == 0x2b);
        law_saved_files_are_opened(before, after, path, mode[0], true, saved, handle);
    }
}

/// A file that is opened to be read is the saved one where there is one, then a resource,
/// then the one beside the application; none of them is opened where there is none. Only
/// a saved one can be written, where the mode holds a plus sign, and then it is as saved
/// until it is written.
pub proof fn law_files_are_opened_to_be_read(
    before: FileTable,
    after: FileTable,
    name: Seq<u8>,
    mode: Seq<u8>,
    path: Option<Seq<char>>,
    saved: HostRead,
    resource: Option<(ResourceKind, Vec<u8>)>,
    found: HostRead,
    handle: u32,
)
    requires
        guest_file_opened(before, after, name, mode, path, saved, resource, found, handle),
        before.next_file_handle != 0,
        mode.len() == 0 || mode[0] as char == 'r' || mode[0] as char != 'w' && mode[0] as char
            != 'a' && !mode.contains('+' as u8),
    ensures
        path is Some && saved is Data ==> {
            let file = after.files@[handle];
            &&& one_opened(before, after, handle)
            &&& holds(file, saved->Data_0@, 0)
            &&& kept_at(file, path->Some_0, mode.contains('+' as u8), false)
        },
        !(path is Some && saved is Data) && resource is Some ==> {
            &&& one_opened(before, after, handle)
            &&& resource_opened(before, after, name, resource, handle)
            &&& after.files@[handle].position == 0
            &&& only_to_read(after.files@[handle])
        },
        !(path is Some && saved is Data) && resource is None && found is Data ==> {
            &&& one_opened(before, after, handle)
            &&& holds(after.files@[handle], found->Data_0@, 0)
            &&& only_to_read(after.files@[handle])
        },
        !(path is Some && saved is Data) && resource is None && !(found is Data) ==> unopened(
            before,
            after,
            handle,
        ),
{
    let plus = mode.contains('+' as u8);
    if plus {
        let i = choose|i: int| 0 <= i < mode.len() && mode[i] == '+' as u8;
        assert(mode[i] == 0x2b);
    } else {
        assert forall|i: int| 0 <= i < mode.len() implies #[trigger] mode[i] != 0x2b by {
            assert(mode.contains(mode[i]));
        }
    }
    if path is Some && saved is Data {
        law_saved_files_are_opened(before, after, path, 'r' as u8, plus, saved, handle);
    } else {
        law_other_files_are_opened(before, after, name, resource, found, handle);
    }
}

/// A position is reached by moving from the beginning, the position or the end of a file,
/// and lies in it or at its end. Where the way leads before the beginning, or starts
/// nowhere, nothing moves.
pub proof fn law_positions_are_reached(
    before: FileTable,
    after: FileTable,
    handle: u32,
    offset: i32,
    origin: u32,
    result: u32,
)
    requires
        file_sought(before, after, handle, offset, origin, result),
    ensures
        ({
            let file = before.files@[handle];
            let length = file.data@.len() as int;
            let wanted = offset + if origin == 0 {
                0
            } else if origin == 1 {
                file.position as int
            } else {
                length
            };
            if before.files@.contains_key(handle) && origin <= 2 && wanted >= 0 {
                &&& result == 0
                &&& after.files@.contains_key(handle)
                &&& 0 <= after.files@[handle].position <= length
                &&& wanted <= length ==> after.files@[handle].position == wanted
                &&& wanted > length ==> after.files@[handle].position == length
                &&& after.files@[handle] == (OpenFile {
                    position: after.files@[handle].position,
                    ..file
                })
                &&& forall|other: u32|
                    #![trigger after.files@.contains_key(other)]
                    #![trigger after.files@[other]]
                    other != handle ==> (after.files@.contains_key(other)
                        <==> before.files@.contains_key(other)) && after.files@[other]
                        == before.files@[other]
            } else {
                result == 0xffff_ffff && after.files@ == before.files@
            }
        }),
{
    let file = before.files@[handle];
    assert(file.data@.len() == file.data.len());
}

/// Reading from a file copies its bytes from the position on into guest memory, as many
/// as were asked for and are left, and moves the position behind them. It gives the number
/// of whole items.
pub proof fn law_files_are_read(
    before: FileTable,
    after: FileTable,
    memory: Memory,
    memory_after: Memory,
    destination: u32,
    size: u32,
    count: u32,
    handle: u32,
    result: Result<u32, SimulatorError>,
)
    requires
        file_read(before, after, memory, memory_after, destination, size, count, handle, result),
        memory@.sized(),
        before.files@.contains_key(handle),
        size > 0,
        count > 0,
        ({
            let file = before.files@[handle];
            &&& file.position < file.data@.len()
            &&& together(destination as int, file.data@.len() - file.position)
        }),
    ensures
        ({
            let file = before.files@[handle];
            let position = file.position as int;
            let end = after.files@[handle].position as int;
            let left = file.data@.len() - position;
            let first = spot(destination as int)->0;
            &&& after.files@[handle] == (OpenFile {
                position: after.files@[handle].position,
                ..file
            })
            &&& position < end <= file.data@.len()
            &&& size * count <= left ==> end == position + size * count
            &&& size * count >= left ==> end == file.data@.len()
            &&& same_besides(memory@, memory_after@, first, end - position)
            &&& lies_at(memory_after@, first, file.data@.subrange(position, end))
            &&& result matches Ok(items) && items * size <= end - position < (items + 1) * size
        }),
{
    let file = before.files@[handle];
    assert(file.data@.len() == file.data.len());
    let position = file.position as int;
    let left = file.data@.len() - position;
    assert(size * count > 0) by (nonlinear_arith)
        requires
            size > 0,
            count > 0,
    ;
    let length = read_length(file, size, count);
    assert(0 < length <= left);
    assert(together(destination as int, length));
    lemma_run(destination, length);
    let bytes = bytes_ahead(file, length);
    assert(bytes.take(length) =~= bytes);
    law_blocks_are_written(memory@, destination, bytes);
    let items = length / size as int;
    assert(items * size <= length < (items + 1) * size && 0 <= items <= length) by (nonlinear_arith)
        requires
            size > 0,
            length > 0,
            items == length / size as int,
    ;
}

/// Writing to a file puts the guest's bytes at its position, moves that behind them and
/// leaves every other byte; a gap before them is filled with zeros. A file that is only
/// read is not written.
pub proof fn law_files_are_written(
    before: FileTable,
    after: FileTable,
    memory: Memory,
    source: u32,
    size: u32,
    count: u32,
    handle: u32,
    result: Result<u32, SimulatorError>,
)
    requires
        file_written(before, after, memory, source, size, count, handle, result),
        memory@.sized(),
        before.files@.contains_key(handle),
        size > 0,
        count > 0,
        size * count <= 0xffff_ffff,
        before.files@[handle].position + size * count <= usize::MAX,
        together(source as int, size * count),
    ensures
        !before.files@[handle].writable ==> result == Ok::<u32, SimulatorError>(0) && after.files@
            == before.files@,
        before.files@[handle].writable ==> {
            let file = before.files@[handle];
            let written = after.files@[handle];
            let first = spot(source as int)->0;
            let position = file.position as int;
            let end = position + size * count;
            &&& result == Ok::<u32, SimulatorError>(count)
            &&& written.position == end
            &&& written.dirty
            &&& written.data@.len() >= end
            &&& written.data@.len() == end || written.data@.len() == file.data@.len()
            &&& forall|i: int|
                0 <= i < size * count ==> #[trigger] cell(memory@, (first.0, first.1 + i))
                    == written.data@[position + i]
            &&& forall|i: int|
                0 <= i < written.data@.len() && !(position <= i < end) ==> (
                #[trigger] written.data@[i]) == if i < file.data@.len() {
                    file.data@[i]
                } else {
                    0
                }
        },
{
    let length = size * count;
    assert(length > 0) by (nonlinear_arith)
        requires
            length == size * count,
            size > 0,
            count > 0,
    ;
    lemma_run(source, length);
    law_blocks_are_read(memory@, source, length as nat);
}

/// What a resource is read into comes from its position on, and the position moves behind
/// it. Without a place for it, it is copied to the heap as a whole, once.
pub proof fn law_resources_are_read(
    before: FileTable,
    after: FileTable,
    memory: Memory,
    memory_after: Memory,
    handle: u32,
    buffer: u32,
    buffer_len: u32,
    read_len: u32,
    result: Result<u32, SimulatorError>,
)
    requires
        resource_read(
            before,
            after,
            memory,
            memory_after,
            handle,
            buffer,
            buffer_len,
            read_len,
            result,
        ),
        memory@.sized(),
        before.files@.contains_key(handle),
        0x0180_0000 <= memory.heap_next,
        ({
            let file = before.files@[handle];
            &&& 0 < file.data@.len() <= 0xffff_ffff
            &&& file.position < file.data@.len()
            &&& buffer != 0 ==> together(buffer as int, file.data@.len() - file.position)
            &&& buffer == 0 ==> file.data_ptr == 0 && memory.heap_next % 8 == 0
                && memory.heap_next + file.data@.len() <= 0x01f0_0000
        }),
    ensures
        buffer == 0 ==> {
            let file = before.files@[handle];
            &&& result == Ok::<u32, SimulatorError>(after.files@[handle].data_ptr)
            &&& after.files@[handle] == (OpenFile {
                data_ptr: after.files@[handle].data_ptr,
                ..file
            })
            &&& memory.heap_next <= after.files@[handle].data_ptr
            &&& after.files@[handle].data_ptr + file.data@.len() <= memory_after.heap_next
            &&& lies_at(
                memory_after@,
                (false, after.files@[handle].data_ptr as int),
                file.data@,
            )
        },
        buffer != 0 ==> {
            let file = before.files@[handle];
            let position = file.position as int;
            let end = after.files@[handle].position as int;
            let first = spot(buffer as int)->0;
            let left = file.data@.len() - position;
            let asked = if read_len == 0 {
                buffer_len as int
            } else if buffer_len <= 1 {
                read_len as int
            } else {
                read_len * buffer_len
            };
            &&& after.files@[handle] == (OpenFile {
                position: after.files@[handle].position,
                ..file
            })
            &&& position < end <= file.data@.len()
            &&& 0 < asked <= left ==> end == position + asked
            &&& asked == 0 || asked >= left ==> end == file.data@.len()
            &&& same_besides(memory@, memory_after@, first, end - position)
            &&& lies_at(memory_after@, first, file.data@.subrange(position, end))
            &&& result matches Ok(items) && if read_len == 0 {
                items == end - position
            } else {
                items * read_len <= end - position < (items + 1) * read_len
            }
        },
{
    let file = before.files@[handle];
    assert(file.data@.len() == file.data.len());
    if buffer == 0 {
        let size = file.data@.len() as u32;
        let pointer = allocation(memory.heap_next, size);
        law_heap_blocks_are_apart(memory.heap_next, size, 0);
        assert(together(pointer as int, size as int));
        lemma_run(pointer, size as int);
        assert(file.data@.take(size as int) =~= file.data@);
        law_blocks_are_written(memory@, pointer, file.data@);
    } else {
        let length = resource_copy_size(file, buffer_len, read_len);
        if read_len != 0 && buffer_len > 1 {
            assert(read_len * buffer_len > 0) by (nonlinear_arith)
                requires
                    read_len > 0,
                    buffer_len > 0,
            ;
        }
        assert(together(buffer as int, length));
        lemma_run(buffer, length);
        let bytes = bytes_ahead(file, length);
        assert(bytes.take(length) =~= bytes);
        law_blocks_are_written(memory@, buffer, bytes);
        if read_len != 0 {
            let items = length / read_len as int;
            assert(items * read_len <= length < (items + 1) * read_len && 0 <= items <= length)
                by (nonlinear_arith)
                requires
                    read_len > 0,
                    length > 0,
                    items == length / read_len as int,
            ;
        }
    }
}

/// A read into a place with a gap fails at it: the bytes before it are copied, and the
/// file stays as it is. A read of nothing, or of no open file, does nothing.
pub proof fn law_reads_that_fail(
    before: FileTable,
    after: FileTable,
    memory: Memory,
    memory_after: Memory,
    destination: u32,
    size: u32,
    count: u32,
    handle: u32,
    result: Result<u32, SimulatorError>,
    gap: int,
)
    requires
        file_read(before, after, memory, memory_after, destination, size, count, handle, result),
        0 <= size * count <= 0xffff_ffff,
    ensures
        size == 0 || count == 0 || !before.files@.contains_key(handle) ==> {
            &&& result == Ok::<u32, SimulatorError>(0)
            &&& after.files@ == before.files@
            &&& memory_after@ == memory@
        },
        ({
            let file = before.files@[handle];
            let left = file.data@.len() - file.position;
            &&& size > 0 && count > 0 && before.files@.contains_key(handle)
            &&& 0 < left && first_gap(destination, size * count, gap) && gap < left
        }) ==> {
            let file = before.files@[handle];
            &&& result == Err::<u32, SimulatorError>(
                SimulatorError::UnmappedAddress { address: behind(destination, gap) as u32 },
            )
            &&& after.files@ == before.files@
            &&& memory_after@ == put_bytes(
                memory@,
                destination,
                file.data@.subrange(file.position as int, file.position + gap),
            )
        },
{
    let file = before.files@[handle];
    let left = file.data@.len() - file.position;
    if size > 0 && count > 0 && before.files@.contains_key(handle) && 0 < left && first_gap(
        destination,
        size * count,
        gap,
    ) && gap < left {
        let length = read_length(file, size, count);
        assert(first_gap(destination, length, gap));
        lemma_first_gap(destination, length, gap);
        assert(bytes_ahead(file, length).take(gap) =~= file.data@.subrange(
            file.position as int,
            file.position + gap,
        ));
    }
}

/// A write from a place with a gap fails at it, and the file stays as it is. A write of
/// nothing, or to no open file, does nothing.
pub proof fn law_writes_that_fail(
    before: FileTable,
    after: FileTable,
    memory: Memory,
    source: u32,
    size: u32,
    count: u32,
    handle: u32,
    result: Result<u32, SimulatorError>,
    gap: int,
)
    requires
        file_written(before, after, memory, source, size, count, handle, result),
        0 <= size * count <= 0xffff_ffff,
    ensures
        size == 0 || count == 0 ==> result == Ok::<u32, SimulatorError>(0) && after.files@
            == before.files@,
        size > 0 && count > 0 && first_gap(source, size * count, gap) ==> {
            &&& result == Err::<u32, SimulatorError>(
                SimulatorError::UnmappedAddress { address: behind(source, gap) as u32 },
            )
            &&& after.files@ == before.files@
        },
        !before.files@.contains_key(handle) ==> after.files@ == before.files@,
{
    if size > 0 && count > 0 && first_gap(source, size * count, gap) {
        lemma_first_gap(source, size * count, gap);
    }
}

} // verus!
