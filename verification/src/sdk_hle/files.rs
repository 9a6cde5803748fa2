//! File functions.
//!
//! A call says what it needs of the host's file system; the host looks it up, and
//! the call is carried out on what was found.

use crate::app_image::ResourceKind;
use crate::emulator::Emulator;
use crate::error::SimulatorError;
use crate::files::{
    file_read, file_sought, file_written, guest_file_opened, resource_opened, resource_read,
    HostRead,
};
use crate::isa::{reg, with_reg};
use crate::memory::{Memory, MemoryView};
use crate::outside::{text_from_utf16, utf16_lossy};
use crate::paths::{
    host_file_path, join_path, joined, normalized_pattern, plan_file_search,
    resolve_host_file_path, save_file_path, save_path, search_directory, search_file_pattern,
};
use crate::sdk_hle::call::HandlerResult;
use crate::search::{in_order, search_begun, search_continued, select_entries, selected, HostEntry};
use crate::text::{
    c_string, read_guest_c_string, read_guest_w_string, read_guest_w_string_words, text_equal,
    w_words,
};
use vstd::prelude::*;
use vstd::string::*;

verus! {

/// Guest addresses below this one are taken for small numbers.
pub const LOWEST_NAME_ADDRESS: u32 = 0x1_0000;

/// What a call needs of the host.
#[derive(Debug)]
pub enum HostRequest {
    Nothing,
    /// A resource of the application.
    Resource(String),
    /// A file: as saved, as a resource, and beside the application.
    Open(OpenRequest),
    /// The contents of a file, to be saved.
    Save(u32),
    /// The entries of a directory below the application's.
    List(String),
}

/// A file that is to be opened.
#[derive(Debug)]
pub struct OpenRequest {
    pub name: String,
    pub mode: String,
    /// Where it is saved, where it can be.
    pub save_path: Option<String>,
    /// Where it lies beside the application.
    pub host_path: String,
}

/// What the host found.
#[derive(Debug)]
pub enum HostReply {
    Nothing,
    Resource(Option<(ResourceKind, Vec<u8>)>),
    Opened { saved: HostRead, resource: Option<(ResourceKind, Vec<u8>)>, found: HostRead },
    /// Whether the contents were saved.
    Saved(bool),
    /// The entries; none where the directory cannot be listed.
    Entries(Option<Vec<HostEntry>>),
}

impl HostReply {
    /// The resource in a reply.
    pub open spec fn resource(self) -> Option<(ResourceKind, Vec<u8>)> {
        match self {
            HostReply::Resource(resource) => resource,
            HostReply::Opened { saved, resource, found } => resource,
            _ => None,
        }
    }

    /// The saved file in a reply.
    pub open spec fn saved_data(self) -> HostRead {
        match self {
            HostReply::Opened { saved, resource, found } => saved,
            _ => HostRead::Failed,
        }
    }

    /// The file beside the application in a reply.
    pub open spec fn found_data(self) -> HostRead {
        match self {
            HostReply::Opened { saved, resource, found } => found,
            _ => HostRead::Failed,
        }
    }

    /// The directory in a reply.
    pub open spec fn entries(self) -> Option<Vec<HostEntry>> {
        match self {
            HostReply::Entries(entries) => entries,
            _ => None,
        }
    }
}

/// Whether opening a file asks for the console's own menu.
pub open spec fn returns_to_firmware(name_words: Seq<u16>, mode: Seq<char>) -> bool {
    &&& mode == "rb"@
    &&& name_words == seq![0xDE88u16, 0x80AAu16] || name_words == seq![0x88C0u16, 0x80ADu16]
}

/// Whether opening a file means a return to the firmware.
pub fn is_firmware_return_request(name_words: &[u16], mode: &str) -> (result: bool)
    ensures
        result == returns_to_firmware(name_words@, mode@),
{
    let first = name_words.len() == 2 && name_words[0] == 0xDE88 && name_words[1] == 0x80AA;
    let second = name_words.len() == 2 && name_words[0] == 0x88C0 && name_words[1] == 0x80AD;
    proof {
        let one = seq![0xDE88u16, 0x80AAu16];
        let two = seq![0x88C0u16, 0x80ADu16];
        assert(one.len() == 2 && one[0] == 0xDE88 && one[1] == 0x80AA);
        assert(two.len() == 2 && two[0] == 0x88C0 && two[1] == 0x80AD);
        assert(first ==> name_words@ =~= one);
        assert(second ==> name_words@ =~= two);
    }
    text_equal(mode, "rb") && (first || second)
}

/// The first argument that points to a text that is not empty.
pub open spec fn resource_name(memory: MemoryView, args: Seq<u32>, from: int) -> Option<Seq<char>>
    decreases args.len() - from,
{
    if from < 0 || from >= args.len() {
        None
    } else if args[from] >= LOWEST_NAME_ADDRESS && c_string(memory, args[from]).len() > 0 {
        Some(c_string(memory, args[from]))
    } else {
        resource_name(memory, args, from + 1)
    }
}

/// The first argument that names a resource.
pub fn resource_name_from_args(memory: &Memory, args: &[u32]) -> (name: Option<String>)
    ensures
        match resource_name(memory@, args@, 0) {
            Some(expected) => name matches Some(name) && name@ == expected,
            None => name is None,
        },
{
    let mut index: usize = 0;
    while index < args.len()
        invariant
            index <= args@.len(),
            resource_name(memory@, args@, 0) == resource_name(memory@, args@, index as int),
        decreases args@.len() - index,
    {
        if args[index] >= LOWEST_NAME_ADDRESS {
            let name = read_guest_c_string(memory, args[index]);
            if name.as_str().unicode_len() > 0 {
                return Some(name);
            }
        }
        index = index + 1;
    }
    None
}

/// The arguments that can name a resource, the likeliest first.
pub open spec fn name_arguments(regs: Seq<u32>) -> Seq<u32> {
    seq![reg(regs, 6), reg(regs, 5), reg(regs, 4)]
}

/// Where a guest file is saved, where it can be.
pub open spec fn full_save_path(save_directory: Option<String>, name: Seq<char>) -> Option<
    Seq<char>,
> {
    match (save_directory, save_path(name)) {
        (Some(directory), Some(path)) => Some(joined(directory@, path)),
        _ => None,
    }
}

pub open spec fn text_is(text: Option<String>, expected: Option<Seq<char>>) -> bool {
    match expected {
        Some(expected) => text matches Some(text) && text@ == expected,
        None => text is None,
    }
}

/// The file that a call opens: its name and the mode. None where the call opens no
/// file.
pub open spec fn file_to_open(name: Seq<char>, regs: Seq<u32>, memory: MemoryView) -> Option<
    (Seq<char>, Seq<char>),
> {
    if name == "fopen"@ || name == "fsys_fopen"@ {
        Some((c_string(memory, reg(regs, 4)), c_string(memory, reg(regs, 5))))
    } else if name == "fsys_fopenW"@ {
        let words = w_words(memory, reg(regs, 4));
        let mode = utf16_lossy(w_words(memory, reg(regs, 5)));
        if returns_to_firmware(words, mode) {
            None
        } else {
            Some((utf16_lossy(words), mode))
        }
    } else {
        None
    }
}

/// Whether a request is what a call needs.
pub open spec fn request_is(request: HostRequest, name: Seq<char>, emu: Emulator) -> bool {
    let regs = emu.cpu.regs.file();
    let memory = emu.memory@;
    let handle = reg(regs, 4);
    match file_to_open(name, regs, memory) {
        Some((file, mode)) => request matches HostRequest::Open(open) && open.name@ == file
            && open.mode@ == mode && text_is(
            open.save_path,
            full_save_path(emu.save_directory, file),
        ) && open.host_path@ == host_file_path(emu.app_path@, file),
        None => if name == "dl_res_open"@ {
            match resource_name(memory, name_arguments(regs), 0) {
                Some(resource) => request matches HostRequest::Resource(text) && text@ == resource,
                None => request is Nothing,
            }
        } else if closes_file(name) && emu.files.needs_flush(handle) {
            request == HostRequest::Save(handle)
        } else if name == "fsys_findfirst"@ && reg(regs, 6) != 0 {
            match normalized_pattern(c_string(memory, handle)) {
                Some(normalized) => request matches HostRequest::List(directory) && directory@
                    == search_directory(normalized),
                None => request is Nothing,
            }
        } else {
            request is Nothing
        },
    }
}

/// Whether a function closes a file.
pub open spec fn closes_file(name: Seq<char>) -> bool {
    name == "fclose"@ || name == "fsys_fclose"@ || name == "fsys_fcloseW"@
}

impl Emulator {
    /// Where a guest file is saved on the host.
    pub fn save_file_path(&self, name: &str) -> (path: Option<String>)
        ensures
            text_is(path, full_save_path(self.save_directory, name@)),
    {
        match (&self.save_directory, save_file_path(name)) {
            (Some(directory), Some(path)) => Some(join_path(directory.as_str(), path.as_str())),
            _ => None,
        }
    }

    fn open_request(&self, name: String, mode: String) -> (request: OpenRequest)
        ensures
            request.name@ == name@,
            request.mode@ == mode@,
            text_is(request.save_path, full_save_path(self.save_directory, name@)),
            request.host_path@ == host_file_path(self.app_path@, name@),
    {
        let save_path = self.save_file_path(name.as_str());
        let host_path = resolve_host_file_path(self.app_path.as_str(), name.as_str());
        OpenRequest { name, mode, save_path, host_path }
    }
}

/// The name and the mode of the file that a call opens.
fn find_file_to_open(emu: &Emulator, func_name: &str) -> (file: Option<(String, String)>)
    ensures
        match file_to_open(func_name@, emu.cpu.regs.file(), emu.memory@) {
            Some((name, mode)) => file matches Some((text, open_mode)) && text@ == name
                && open_mode@ == mode,
            None => file is None,
        },
{
    if text_equal(func_name, "fopen") || text_equal(func_name, "fsys_fopen") {
        let name = read_guest_c_string(&emu.memory, emu.argument(4));
        let mode = read_guest_c_string(&emu.memory, emu.argument(5));
        Some((name, mode))
    } else if text_equal(func_name, "fsys_fopenW") {
        let words = read_guest_w_string_words(&emu.memory, emu.argument(4));
        let name = text_from_utf16(words.as_slice());
        let mode = read_guest_w_string(&emu.memory, emu.argument(5));
        if is_firmware_return_request(words.as_slice(), mode.as_str()) {
            None
        } else {
            Some((name, mode))
        }
    } else {
        None
    }
}

/// What a call needs of the host.
pub fn host_request(emu: &Emulator, func_name: &str) -> (request: HostRequest)
    ensures
        request_is(request, func_name@, *emu),
{
    match find_file_to_open(emu, func_name) {
        Some((name, mode)) => {
            return HostRequest::Open(emu.open_request(name, mode));
        },
        None => {},
    }
    if text_equal(func_name, "dl_res_open") {
        let args: Vec<u32> = vec![emu.argument(6), emu.argument(5), emu.argument(4)];
        assert(args@ =~= name_arguments(emu.cpu.regs.file()));
        match resource_name_from_args(&emu.memory, args.as_slice()) {
            Some(name) => HostRequest::Resource(name),
            None => HostRequest::Nothing,
        }
    } else if (text_equal(func_name, "fclose") || text_equal(func_name, "fsys_fclose")
        || text_equal(func_name, "fsys_fcloseW")) && emu.files.flush_request(
        emu.argument(4),
    ).is_some() {
        HostRequest::Save(emu.argument(4))
    } else if text_equal(func_name, "fsys_findfirst") && emu.argument(6) != 0 {
        let pattern = read_guest_c_string(&emu.memory, emu.argument(4));
        match plan_file_search(pattern.as_str()) {
            Some(plan) => HostRequest::List(plan.directory),
            None => HostRequest::Nothing,
        }
    } else {
        HostRequest::Nothing
    }
}

// What the calls do.

/// Whether a call changed nothing but the processor's result, guest memory, open
/// files and searches.
pub open spec fn only_files(before: Emulator, after: Emulator) -> bool {
    &&& after.same_flow(&before)
    &&& after == (Emulator {
        cpu: after.cpu,
        memory: after.memory,
        files: after.files,
        searches: after.searches,
        ..before
    })
}

/// Whether a call left this result.
pub open spec fn gave(before: Emulator, after: Emulator, value: u32) -> bool {
    &&& after.cpu.regs.file() == with_reg(before.cpu.regs.file(), 2, value)
    &&& after.cpu.running == before.cpu.running
}

/// Whether a call told its caller how it ended: a result, or the error itself.
pub open spec fn reported(
    before: Emulator,
    after: Emulator,
    outcome: Result<u32, SimulatorError>,
    result: Result<HandlerResult, SimulatorError>,
) -> bool {
    match outcome {
        Ok(value) => gave(before, after, value) && result == Ok::<HandlerResult, SimulatorError>(
            HandlerResult::Complete,
        ),
        Err(error) => after.cpu == before.cpu && result == Err::<HandlerResult, SimulatorError>(
            error,
        ),
    }
}

/// How a call ended, by what it told its caller.
pub open spec fn outcome_of(
    after: Emulator,
    result: Result<HandlerResult, SimulatorError>,
) -> Result<u32, SimulatorError> {
    match result {
        Ok(_) => Ok(reg(after.cpu.regs.file(), 2)),
        Err(error) => Err(error),
    }
}

/// The names that a search yields, in their order.
pub open spec fn listing(
    names: Seq<String>,
    entries: Seq<HostEntry>,
    file_pattern: Seq<char>,
    attributes: u32,
) -> bool {
    &&& in_order(names)
    &&& names.to_multiset() == selected(
        entries,
        vstd::utf8::encode_utf8(file_pattern),
        attributes,
    ).to_multiset()
}

/// What beginning a search for the guest does.
pub open spec fn guest_search_begun(
    before: Emulator,
    after: Emulator,
    reply: HostReply,
    result: Result<HandlerResult, SimulatorError>,
) -> bool {
    let regs = before.cpu.regs.file();
    let outcome = outcome_of(after, result);
    match (normalized_pattern(c_string(before.memory@, reg(regs, 4))), reply.entries()) {
        (Some(normalized), Some(entries)) => exists|names: Seq<String>|
            #[trigger] listing(
                names,
                entries@,
                search_file_pattern(normalized),
                reg(regs, 5),
            ) && search_begun(
                before.searches,
                after.searches,
                before.memory,
                after.memory,
                reg(regs, 6),
                Some(names),
                outcome,
            ),
        _ => search_begun(
            before.searches,
            after.searches,
            before.memory,
            after.memory,
            reg(regs, 6),
            None,
            outcome,
        ),
    }
}

/// Whether closing a file leaves nothing unsaved.
pub open spec fn saved_at_close(before: Emulator, handle: u32, reply: HostReply) -> bool {
    !before.files.needs_flush(handle) || reply == HostReply::Saved(true)
}

pub open spec fn is_read(name: Seq<char>) -> bool {
    name == "fread"@ || name == "fsys_fread"@
}

pub open spec fn is_seek(name: Seq<char>) -> bool {
    name == "fseek"@ || name == "fsys_fseek"@
}

pub open spec fn is_tell(name: Seq<char>) -> bool {
    name == "ftell"@ || name == "fsys_ftell"@
}

pub open spec fn is_end_test(name: Seq<char>) -> bool {
    name == "feof"@ || name == "fsys_feof"@
}

pub open spec fn is_write(name: Seq<char>) -> bool {
    name == "fwrite"@ || name == "fsys_fwrite"@
}

/// A number as the signed number with the same bits.
pub open spec fn signed(value: u32) -> i32 {
    if value < 0x8000_0000 {
        value as i32
    } else {
        (value - 0x1_0000_0000) as i32
    }
}

fn to_signed(value: u32) -> (result: i32)
    ensures
        result == signed(value),
{
    if value < 0x8000_0000 {
        value as i32
    } else {
        (value as i64 - 0x1_0000_0000i64) as i32
    }
}

/// Whether a function of this name is handled here.
pub open spec fn is_file_function(name: Seq<char>) -> bool {
    ||| name == "get_dl_handle"@
    ||| name == "dl_res_open"@
    ||| name == "dl_res_get_size"@
    ||| name == "dl_res_get_data"@
    ||| name == "dl_res_close"@
    ||| name == "fopen"@
    ||| name == "fsys_fopen"@
    ||| name == "fsys_fopenW"@
    ||| closes_file(name)
    ||| is_read(name)
    ||| is_seek(name)
    ||| is_tell(name)
    ||| is_end_test(name)
    ||| is_write(name)
    ||| name == "fsys_findfirst"@
    ||| name == "fsys_findnext"@
    ||| name == "fsys_findclose"@
}

/// What each function does with what the host found.
pub open spec fn file_call(
    name: Seq<char>,
    before: Emulator,
    after: Emulator,
    reply: HostReply,
    result: Result<HandlerResult, SimulatorError>,
) -> bool {
    let regs = before.cpu.regs.file();
    let handle = reg(regs, 4);
    let outcome = outcome_of(after, result);
    let same_memory = after.memory == before.memory;
    let same_heap = after.memory.heap_next == before.memory.heap_next;
    let same_files = after.files == before.files;
    let same_searches = after.searches == before.searches;
    let same_handles = after.files.next_file_handle == before.files.next_file_handle;
    if name == "get_dl_handle"@ {
        &&& same_memory && same_files && same_searches
        &&& reported(
            before,
            after,
            Ok(
                if before.app is Some {
                    1
                } else {
                    0
                },
            ),
            result,
        )
    } else if name == "dl_res_open"@ {
        &&& same_memory && same_searches
        &&& resource_opened(
            before.files,
            after.files,
            match resource_name(before.memory@, name_arguments(regs), 0) {
                Some(resource) => vstd::utf8::encode_utf8(resource),
                None => Seq::empty(),
            },
            match resource_name(before.memory@, name_arguments(regs), 0) {
                Some(_) => reply.resource(),
                None => None,
            },
            reg(after.cpu.regs.file(), 2),
        )
        &&& reported(before, after, outcome, result)
        &&& result is Ok
    } else if name == "dl_res_get_size"@ {
        &&& same_memory && same_files && same_searches
        &&& reported(
            before,
            after,
            Ok(
                if before.files.files@.contains_key(handle) {
                    before.files.files@[handle].data@.len() as u32
                } else {
                    0
                },
            ),
            result,
        )
    } else if name == "dl_res_get_data"@ {
        &&& same_searches && same_handles
        &&& resource_read(
            before.files,
            after.files,
            before.memory,
            after.memory,
            handle,
            reg(regs, 5),
            reg(regs, 6),
            reg(regs, 7),
            outcome,
        )
        &&& reported(before, after, outcome, result)
    } else if name == "dl_res_close"@ {
        &&& same_memory && same_searches && same_handles
        &&& after.files.files@ == before.files.files@.remove(handle)
        &&& reported(before, after, Ok(0), result)
    } else if name == "fopen"@ || name == "fsys_fopen"@ || name == "fsys_fopenW"@ {
        match file_to_open(name, regs, before.memory@) {
            Some((file, mode)) => {
                &&& same_memory && same_searches
                &&& guest_file_opened(
                    before.files,
                    after.files,
                    vstd::utf8::encode_utf8(file),
                    vstd::utf8::encode_utf8(mode),
                    full_save_path(before.save_directory, file),
                    reply.saved_data(),
                    reply.resource(),
                    reply.found_data(),
                    reg(after.cpu.regs.file(), 2),
                )
                &&& reported(before, after, outcome, result)
                &&& result is Ok
            },
            None => {
                &&& same_memory && same_files && same_searches
                &&& after.cpu.regs.file() == with_reg(regs, 2, 0)
                &&& !after.cpu.running
                &&& result == Ok::<HandlerResult, SimulatorError>(HandlerResult::Complete)
            },
        }
    } else if closes_file(name) {
        &&& same_memory && same_searches && same_handles
        &&& after.files.files@ == before.files.files@.remove(handle)
        &&& reported(
            before,
            after,
            Ok(
                if saved_at_close(before, handle, reply) {
                    0
                } else {
                    u32::MAX
                },
            ),
            result,
        )
    } else if is_read(name) {
        &&& same_searches && same_handles && same_heap
        &&& file_read(
            before.files,
            after.files,
            before.memory,
            after.memory,
            handle,
            reg(regs, 5),
            reg(regs, 6),
            reg(regs, 7),
            outcome,
        )
        &&& reported(before, after, outcome, result)
    } else if is_seek(name) {
        &&& same_memory && same_searches && same_handles
        &&& file_sought(
            before.files,
            after.files,
            handle,
            signed(reg(regs, 5)),
            reg(regs, 6),
            reg(after.cpu.regs.file(), 2),
        )
        &&& reported(before, after, outcome, result)
        &&& result is Ok
    } else if is_tell(name) {
        &&& same_memory && same_files && same_searches
        &&& reported(
            before,
            after,
            Ok(
                if before.files.files@.contains_key(handle) {
                    before.files.files@[handle].position as u32
                } else {
                    u32::MAX
                },
            ),
            result,
        )
    } else if is_end_test(name) {
        &&& same_memory && same_files && same_searches
        &&& reported(
            before,
            after,
            Ok(
                if before.files.files@.contains_key(handle) && before.files.files@[handle].position
                    < before.files.files@[handle].data@.len() {
                    0
                } else {
                    1
                },
            ),
            result,
        )
    } else if is_write(name) {
        &&& same_memory && same_searches && same_handles
        &&& file_written(
            before.files,
            after.files,
            before.memory,
            handle,
            reg(regs, 5),
            reg(regs, 6),
            reg(regs, 7),
            outcome,
        )
        &&& reported(before, after, outcome, result)
    } else if name == "fsys_findfirst"@ {
        &&& same_files && same_heap
        &&& guest_search_begun(before, after, reply, result)
        &&& reported(before, after, outcome, result)
    } else if name == "fsys_findnext"@ {
        &&& same_files && same_heap
        &&& search_continued(
            before.searches,
            after.searches,
            before.memory,
            after.memory,
            handle,
            outcome,
        )
        &&& reported(before, after, outcome, result)
    } else if name == "fsys_findclose"@ {
        &&& same_memory && same_files
        &&& after.searches.searches@ == before.searches.searches@.remove(handle)
        &&& reported(before, after, Ok(0), result)
    } else {
        &&& after == before
        &&& result == Ok::<HandlerResult, SimulatorError>(HandlerResult::NotHandled)
    }
}

/// Tells a caller how a call ended.
fn report(emu: &mut Emulator, outcome: Result<u32, SimulatorError>) -> (result: Result<
    HandlerResult,
    SimulatorError,
>)
    requires
        old(emu).wf(),
    ensures
        final(emu).wf(),
        *final(emu) == (Emulator { cpu: final(emu).cpu, ..*old(emu) }),
        final(emu).same_flow(old(emu)),
        reported(*old(emu), *final(emu), outcome, result),
        outcome_of(*final(emu), result) == outcome,
{
    match outcome {
        Ok(value) => {
            emu.cpu.regs.write(2, value);
            Ok(HandlerResult::Complete)
        },
        Err(error) => Err(error),
    }
}

fn open_resource(emu: &mut Emulator, reply: HostReply) -> (handle: u32)
    requires
        old(emu).wf(),
    ensures
        final(emu).wf(),
        *final(emu) == (Emulator { files: final(emu).files, ..*old(emu) }),
        ({
            let named = resource_name(
                old(emu).memory@,
                name_arguments(old(emu).cpu.regs.file()),
                0,
            );
            resource_opened(
                old(emu).files,
                final(emu).files,
                match named {
                    Some(resource) => vstd::utf8::encode_utf8(resource),
                    None => Seq::empty(),
                },
                match named {
                    Some(_) => reply.resource(),
                    None => None,
                },
                handle,
            )
        }),
{
    let args: Vec<u32> = vec![emu.argument(6), emu.argument(5), emu.argument(4)];
    assert(args@ =~= name_arguments(emu.cpu.regs.file()));
    match resource_name_from_args(&emu.memory, args.as_slice()) {
        Some(name) => {
            let resource = match reply {
                HostReply::Resource(resource) => resource,
                HostReply::Opened { saved: _, resource, found: _ } => resource,
                _ => None,
            };
            emu.files.open_resource_file(name.as_str(), resource)
        },
        None => 0,
    }
}

fn open_file(emu: &mut Emulator, name: String, mode: String, reply: HostReply) -> (handle: u32)
    requires
        old(emu).wf(),
    ensures
        final(emu).wf(),
        *final(emu) == (Emulator { files: final(emu).files, ..*old(emu) }),
        guest_file_opened(
            old(emu).files,
            final(emu).files,
            vstd::utf8::encode_utf8(name@),
            vstd::utf8::encode_utf8(mode@),
            full_save_path(old(emu).save_directory, name@),
            reply.saved_data(),
            reply.resource(),
            reply.found_data(),
            handle,
        ),
{
    let path = emu.save_file_path(name.as_str());
    let (saved, resource, found) = match reply {
        HostReply::Opened { saved, resource, found } => (saved, resource, found),
        HostReply::Resource(resource) => (HostRead::Failed, resource, HostRead::Failed),
        _ => (HostRead::Failed, None, HostRead::Failed),
    };
    emu.files.open_guest_file(name.as_str(), mode.as_str(), path, saved, resource, found)
}

fn close(emu: &mut Emulator, handle: u32, reply: HostReply) -> (value: u32)
    requires
        old(emu).wf(),
    ensures
        final(emu).wf(),
        *final(emu) == (Emulator { files: final(emu).files, ..*old(emu) }),
        final(emu).files.files@ == old(emu).files.files@.remove(handle),
        final(emu).files.next_file_handle == old(emu).files.next_file_handle,
        value == if saved_at_close(*old(emu), handle, reply) {
            0u32
        } else {
            u32::MAX
        },
{
    let unsaved = emu.files.flush_request(handle).is_some();
    emu.files.close_file(handle);
    let saved = match reply {
        HostReply::Saved(saved) => saved,
        _ => false,
    };
    if !unsaved || saved {
        0
    } else {
        u32::MAX
    }
}

fn begin_search(emu: &mut Emulator, reply: HostReply) -> (result: Result<
    HandlerResult,
    SimulatorError,
>)
    requires
        old(emu).wf(),
    ensures
        final(emu).wf(),
        only_files(*old(emu), *final(emu)),
        final(emu).files == old(emu).files,
        final(emu).memory.heap_next == old(emu).memory.heap_next,
        guest_search_begun(*old(emu), *final(emu), reply, result),
        reported(*old(emu), *final(emu), outcome_of(*final(emu), result), result),
{
    let pattern = read_guest_c_string(&emu.memory, emu.argument(4));
    let attributes: u32 = emu.argument(5);
    let data_ptr: u32 = emu.argument(6);
    let listed = match reply {
        HostReply::Entries(entries) => entries,
        _ => None,
    };
    let names = match (plan_file_search(pattern.as_str()), listed) {
        (Some(plan), Some(entries)) => {
            let names = select_entries(&entries, plan.file_pattern.as_str(), attributes);
            assert(listing(names@, entries@, plan.file_pattern@, attributes));
            Some(names)
        },
        _ => None,
    };
    let outcome = emu.searches.begin_file_search(&mut emu.memory, data_ptr, names);
    report(emu, outcome)
}

/// Carries out one of these functions on what the host found.
pub fn handle(emu: &mut Emulator, func_name: &str, reply: HostReply) -> (result: Result<
    HandlerResult,
    SimulatorError,
>)
    requires
        old(emu).wf(),
    ensures
        final(emu).wf(),
        only_files(*old(emu), *final(emu)),
        file_call(func_name@, *old(emu), *final(emu), reply, result),
        result matches Ok(HandlerResult::NotHandled) <==> !is_file_function(func_name@),
{
    let first: u32 = emu.argument(4);
    let second: u32 = emu.argument(5);
    let third: u32 = emu.argument(6);
    let fourth: u32 = emu.argument(7);
    if text_equal(func_name, "get_dl_handle") {
        let value: u32 = if emu.app.is_some() {
            1
        } else {
            0
        };
        report(emu, Ok(value))
    } else if text_equal(func_name, "dl_res_open") {
        let handle: u32 = open_resource(emu, reply);
        report(emu, Ok(handle))
    } else if text_equal(func_name, "dl_res_get_size") {
        let size: u32 = emu.files.file_size(first);
        report(emu, Ok(size))
    } else if text_equal(func_name, "dl_res_get_data") {
        let outcome = emu.files.read_resource_data(&mut emu.memory, first, second, third, fourth);
        report(emu, outcome)
    } else if text_equal(func_name, "dl_res_close") {
        emu.files.close_file(first);
        report(emu, Ok(0))
    } else if text_equal(func_name, "fopen") || text_equal(func_name, "fsys_fopen") || text_equal(
        func_name,
        "fsys_fopenW",
    ) {
        match find_file_to_open(emu, func_name) {
            Some((name, mode)) => {
                let handle: u32 = open_file(emu, name, mode, reply);
                report(emu, Ok(handle))
            },
            None => {
                emu.cpu.regs.write(2, 0);
                emu.cpu.stop();
                Ok(HandlerResult::Complete)
            },
        }
    } else if text_equal(func_name, "fclose") || text_equal(func_name, "fsys_fclose")
        || text_equal(func_name, "fsys_fcloseW") {
        let value: u32 = close(emu, first, reply);
        report(emu, Ok(value))
    } else if text_equal(func_name, "fread") || text_equal(func_name, "fsys_fread") {
        let outcome = emu.files.read_file(&mut emu.memory, first, second, third, fourth);
        report(emu, outcome)
    } else if text_equal(func_name, "fseek") || text_equal(func_name, "fsys_fseek") {
        let value: u32 = emu.files.seek_file(first, to_signed(second), third);
        report(emu, Ok(value))
    } else if text_equal(func_name, "ftell") || text_equal(func_name, "fsys_ftell") {
        let value: u32 = emu.files.file_position(first);
        report(emu, Ok(value))
    } else if text_equal(func_name, "feof") || text_equal(func_name, "fsys_feof") {
        let value: u32 = emu.files.end_of_file(first);
        report(emu, Ok(value))
    } else if text_equal(func_name, "fwrite") || text_equal(func_name, "fsys_fwrite") {
        let outcome = emu.files.write_file(&emu.memory, first, second, third, fourth);
        report(emu, outcome)
    } else if text_equal(func_name, "fsys_findfirst") {
        begin_search(emu, reply)
    } else if text_equal(func_name, "fsys_findnext") {
        let outcome = emu.searches.next_file_search(&mut emu.memory, first);
        report(emu, outcome)
    } else if text_equal(func_name, "fsys_findclose") {
        let value: u32 = emu.searches.close_file_search(first);
        report(emu, Ok(value))
    } else {
        Ok(HandlerResult::NotHandled)
    }
}

} // verus!
