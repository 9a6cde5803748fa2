//! File searches of the guest: which host entries they report, in which order,
//! and how the guest walks through them.

use crate::error::SimulatorError;
use crate::memory::{accessible_prefix, put_bytes, Memory};
use crate::paths::{search_matches, wildcard_matches};
use crate::text::{lower, to_lower};
use std::collections::HashMap;
use vstd::prelude::*;
use vstd::string::*;

verus! {

broadcast use vstd::std_specs::hash::group_hash_axioms;

/// Offset of the name in the guest's find data.
pub const FILE_SEARCH_NAME_OFFSET: u32 = 0x12;

/// Bytes for the name in the guest's find data.
pub const FILE_SEARCH_NAME_CAPACITY: usize = 256;

/// Search attribute that asks for directories.
pub const DIRECTORY_ATTRIBUTE: u32 = 0x10;

/// An entry of a host directory.
#[derive(Debug)]
pub struct HostEntry {
    pub name: String,
    pub is_directory: bool,
    pub is_file: bool,
}

/// Whether one byte sequence is not behind another one in dictionary order.
pub open spec fn dictionary_le(left: Seq<u8>, right: Seq<u8>) -> bool
    decreases left.len(),
{
    if left.len() == 0 {
        true
    } else if right.len() == 0 {
        false
    } else if left[0] != right[0] {
        left[0] < right[0]
    } else {
        dictionary_le(left.skip(1), right.skip(1))
    }
}

/// Bytes with ASCII letters in lower case.
pub open spec fn lowered(bytes: Seq<u8>) -> Seq<u8> {
    bytes.map_values(|byte: u8| lower(byte))
}

/// Whether a name is not reported behind another one: dictionary order without
/// regard to case, then dictionary order.
pub open spec fn name_le(left: Seq<u8>, right: Seq<u8>) -> bool {
    if lowered(left) == lowered(right) {
        dictionary_le(left, right)
    } else {
        dictionary_le(lowered(left), lowered(right))
    }
}

/// Dictionary order is total.
pub proof fn lemma_dictionary_total(left: Seq<u8>, right: Seq<u8>)
    ensures
        dictionary_le(left, right) || dictionary_le(right, left),
        dictionary_le(left, right) && dictionary_le(right, left) ==> left == right,
    decreases left.len(),
{
    if left.len() > 0 && right.len() > 0 && left[0] == right[0] {
        lemma_dictionary_total(left.skip(1), right.skip(1));
        if left.skip(1) == right.skip(1) {
            assert(left =~= seq![left[0]] + left.skip(1));
            assert(right =~= seq![right[0]] + right.skip(1));
        }
    } else if left.len() == 0 && right.len() == 0 {
        assert(left =~= right);
    }
}

/// Dictionary order is transitive.
pub proof fn lemma_dictionary_transitive(first: Seq<u8>, second: Seq<u8>, third: Seq<u8>)
    requires
        dictionary_le(first, second),
        dictionary_le(second, third),
    ensures
        dictionary_le(first, third),
    decreases first.len(),
{
    if first.len() > 0 && first[0] == second[0] && second[0] == third[0] {
        lemma_dictionary_transitive(first.skip(1), second.skip(1), third.skip(1));
    }
}

proof fn lemma_name_total(left: Seq<u8>, right: Seq<u8>)
    ensures
        name_le(left, right) || name_le(right, left),
{
    lemma_dictionary_total(left, right);
    lemma_dictionary_total(lowered(left), lowered(right));
}

proof fn lemma_name_transitive(first: Seq<u8>, second: Seq<u8>, third: Seq<u8>)
    requires
        name_le(first, second),
        name_le(second, third),
    ensures
        name_le(first, third),
{
    let a = lowered(first);
    let b = lowered(second);
    let c = lowered(third);
    if a == b && b == c {
        lemma_dictionary_transitive(first, second, third);
    } else if a == c {
        lemma_dictionary_total(a, b);
    } else if a != b && b != c {
        lemma_dictionary_transitive(a, b, c);
    }
}

/// Whether one byte sequence is not behind another one in dictionary order.
pub fn dictionary_before(left: &[u8], right: &[u8]) -> (result: bool)
    ensures
        result == dictionary_le(left@, right@),
{
    let mut index: usize = 0;
    assert(left@.skip(0) =~= left@);
    assert(right@.skip(0) =~= right@);
    while index < left.len() && index < right.len() && left[index] == right[index]
        invariant
            index <= left@.len(),
            index <= right@.len(),
            dictionary_le(left@, right@) == dictionary_le(
                left@.skip(index as int),
                right@.skip(index as int),
            ),
        decreases left@.len() - index,
    {
        assert(left@.skip(index as int).skip(1) =~= left@.skip(index + 1));
        assert(right@.skip(index as int).skip(1) =~= right@.skip(index + 1));
        index = index + 1;
    }
    if index >= left.len() {
        true
    } else if index >= right.len() {
        false
    } else {
        left[index] < right[index]
    }
}

fn to_lowered(bytes: &[u8]) -> (result: Vec<u8>)
    ensures
        result@ == lowered(bytes@),
{
    let mut result: Vec<u8> = Vec::new();
    let mut index: usize = 0;
    while index < bytes.len()
        invariant
            index <= bytes@.len(),
            result@ == lowered(bytes@).take(index as int),
        decreases bytes@.len() - index,
    {
        result.push(to_lower(bytes[index]));
        index = index + 1;
        assert(result@ =~= lowered(bytes@).take(index as int));
    }
    assert(result@ =~= lowered(bytes@));
    result
}

fn name_before(left: &str, right: &str) -> (result: bool)
    ensures
        result == name_le(left.spec_bytes(), right.spec_bytes()),
{
    let a: Vec<u8> = to_lowered(left.as_bytes());
    let b: Vec<u8> = to_lowered(right.as_bytes());
    if crate::text::bytes_equal(a.as_slice(), b.as_slice()) {
        dictionary_before(left.as_bytes(), right.as_bytes())
    } else {
        dictionary_before(a.as_slice(), b.as_slice())
    }
}

/// The bytes of a name.
pub open spec fn name_bytes(name: String) -> Seq<u8> {
    vstd::utf8::encode_utf8(name@)
}

/// Whether names are in the order in which they are reported.
pub open spec fn in_order(names: Seq<String>) -> bool {
    forall|i: int, j: int|
        0 <= i < j < names.len() ==> name_le(
            name_bytes(#[trigger] names[i]),
            name_bytes(#[trigger] names[j]),
        )
}

/// Whether a search reports an entry.
pub open spec fn is_selected(entry: HostEntry, file_pattern: Seq<u8>, attributes: u32) -> bool {
    &&& if attributes & DIRECTORY_ATTRIBUTE != 0 {
        entry.is_directory
    } else {
        entry.is_file
    }
    &&& search_matches(file_pattern, name_bytes(entry.name))
}

/// The names that a search reports, in the order in which the host lists them.
pub open spec fn selected(
    entries: Seq<HostEntry>,
    file_pattern: Seq<u8>,
    attributes: u32,
) -> Seq<String>
    decreases entries.len(),
{
    if entries.len() == 0 {
        Seq::empty()
    } else {
        let earlier = selected(entries.drop_last(), file_pattern, attributes);
        if is_selected(entries.last(), file_pattern, attributes) {
            earlier.push(entries.last().name)
        } else {
            earlier
        }
    }
}

/// Puts a name in its place.
fn insert_name(names: &mut Vec<String>, name: String)
    requires
        in_order(old(names)@),
    ensures
        in_order(final(names)@),
        final(names)@.to_multiset() == old(names)@.to_multiset().insert(name),
{
    let ghost before = names@;
    let mut at: usize = names.len();
    while at > 0 && !name_before(names[at - 1].as_str(), name.as_str())
        invariant
            at <= names@.len(),
            names@ == before,
            in_order(before),
            forall|i: int|
                at <= i < before.len() ==> name_le(
                    name_bytes(name),
                    name_bytes(#[trigger] before[i]),
                ),
        decreases at,
    {
        proof {
            lemma_name_total(name_bytes(before[at - 1]), name_bytes(name));
        }
        at = at - 1;
    }
    names.insert(at, name);
    proof {
        let after = names@;
        assert(after == before.insert(at as int, name));
        assert forall|i: int, j: int| 0 <= i < j < after.len() implies name_le(
            name_bytes(#[trigger] after[i]),
            name_bytes(#[trigger] after[j]),
        ) by {
            let left = if i < at {
                before[i]
            } else if i == at {
                name
            } else {
                before[i - 1]
            };
            let right = if j < at {
                before[j]
            } else if j == at {
                name
            } else {
                before[j - 1]
            };
            assert(after[i] == left && after[j] == right);
            if j == at && i < at {
                if i < at - 1 {
                    lemma_name_transitive(
                        name_bytes(before[i]),
                        name_bytes(before[at - 1]),
                        name_bytes(name),
                    );
                }
            }
        }
        assert(after.remove(at as int) =~= before);
        vstd::seq_lib::to_multiset_remove(after, at as int);
        broadcast use vstd::seq_lib::group_to_multiset_ensures;

        assert(after.contains(name)) by {
            assert(after[at as int] == name);
        }
        assert(after.to_multiset() =~= before.to_multiset().insert(name));
    }
}

/// The names that a search reports, in order.
pub fn select_entries(entries: &Vec<HostEntry>, file_pattern: &str, attributes: u32) -> (names: Vec<
    String,
>)
    ensures
        in_order(names@),
        names@.to_multiset() == selected(
            entries@,
            file_pattern.spec_bytes(),
            attributes,
        ).to_multiset(),
{
    let mut names: Vec<String> = Vec::new();
    let mut index: usize = 0;
    let directories: bool = attributes & DIRECTORY_ATTRIBUTE != 0;
    assert(entries@.take(0) =~= Seq::<HostEntry>::empty());
    while index < entries.len()
        invariant
            index <= entries@.len(),
            directories == (attributes & DIRECTORY_ATTRIBUTE != 0),
            in_order(names@),
            names@.to_multiset() == selected(
                entries@.take(index as int),
                file_pattern.spec_bytes(),
                attributes,
            ).to_multiset(),
        decreases entries@.len() - index,
    {
        let entry = &entries[index];
        proof {
            assert(entries@.take(index + 1).drop_last() =~= entries@.take(index as int));
            assert(entries@.take(index + 1).last() == entries@[index as int]);
        }
        let kind: bool = if directories {
            entry.is_directory
        } else {
            entry.is_file
        };
        if kind && wildcard_matches(file_pattern, entry.name.as_str()) {
            insert_name(&mut names, entry.name.clone());
            proof {
                broadcast use vstd::seq_lib::group_to_multiset_ensures;

            }
        }
        index = index + 1;
    }
    assert(entries@.take(index as int) =~= entries@);
    names
}

/// A search that the guest walks through.
#[derive(Debug)]
pub struct FileSearch {
    pub entries: Vec<String>,
    pub next_index: usize,
}

/// Active searches, by the guest address of their find data.
pub struct SearchTable {
    pub searches: HashMap<u32, FileSearch>,
}

/// What a search writes into the guest's find data.
pub open spec fn name_field(name: Seq<char>) -> Seq<u8> {
    let bytes = vstd::utf8::encode_utf8(name);
    if bytes.len() < FILE_SEARCH_NAME_CAPACITY {
        bytes.push(0)
    } else {
        bytes.take(FILE_SEARCH_NAME_CAPACITY - 1).push(0)
    }
}

/// Guest address of the name in find data.
pub open spec fn name_address(data_ptr: u32) -> u32 {
    data_ptr.wrapping_add(FILE_SEARCH_NAME_OFFSET)
}

/// Writes the name of an entry into find data.
pub fn write_file_search_name(memory: &mut Memory, data_ptr: u32, name: &str) -> (result: Result<
    (),
    SimulatorError,
>)
    ensures
        final(memory).heap_next == old(memory).heap_next,
        old(memory).wf() ==> final(memory).wf(),
        ({
            let field = name_field(name@);
            let written = accessible_prefix(name_address(data_ptr), field.len() as int);
            &&& 0 <= written <= field.len()
            &&& final(memory)@ == put_bytes(
                old(memory)@,
                name_address(data_ptr),
                field.take(written),
            )
            &&& written == field.len() ==> result is Ok
            &&& written < field.len() ==> result == Err::<(), SimulatorError>(
                SimulatorError::UnmappedAddress {
                    address: name_address(data_ptr).wrapping_add(written as u32),
                },
            )
        }),
{
    let bytes = name.as_bytes();
    let length: usize = if bytes.len() < FILE_SEARCH_NAME_CAPACITY {
        bytes.len()
    } else {
        FILE_SEARCH_NAME_CAPACITY - 1
    };
    let mut field: Vec<u8> = Vec::new();
    field.extend_from_slice(vstd::slice::slice_subrange(bytes, 0, length));
    field.push(0);
    assert(field@ =~= name_field(name@));
    memory.load_data(data_ptr.wrapping_add(FILE_SEARCH_NAME_OFFSET), field.as_slice())
}

/// What beginning a search does.
pub open spec fn search_begun(
    before: SearchTable,
    after: SearchTable,
    memory: Memory,
    memory_after: Memory,
    data_ptr: u32,
    entries: Option<Seq<String>>,
    result: Result<u32, SimulatorError>,
) -> bool {
    let cleared = before.searches@.remove(data_ptr);
    if data_ptr == 0 || entries is None || entries->0.len() == 0 {
        &&& result == Ok::<u32, SimulatorError>(u32::MAX)
        &&& after.searches@ == cleared
        &&& memory_after@ == memory@
    } else {
        let field = name_field(entries->0[0]@);
        let written = accessible_prefix(name_address(data_ptr), field.len() as int);
        &&& memory_after@ == put_bytes(
            memory@,
            name_address(data_ptr),
            field.take(written),
        )
        &&& if written == field.len() {
            &&& result == Ok::<u32, SimulatorError>(0)
            &&& after.searches@ == cleared.insert(data_ptr, after.searches@[data_ptr])
            &&& after.searches@[data_ptr].entries@ == entries->0
            &&& after.searches@[data_ptr].next_index == 1
        } else {
            &&& result == Err::<u32, SimulatorError>(
                SimulatorError::UnmappedAddress {
                    address: name_address(data_ptr).wrapping_add(written as u32),
                },
            )
            &&& after.searches@ == cleared
        }
    }
}

/// What continuing a search does.
pub open spec fn search_continued(
    before: SearchTable,
    after: SearchTable,
    memory: Memory,
    memory_after: Memory,
    data_ptr: u32,
    result: Result<u32, SimulatorError>,
) -> bool {
    let searches = before.searches@;
    let search = searches[data_ptr];
    if !searches.contains_key(data_ptr) || search.next_index >= search.entries@.len() {
        &&& result == Ok::<u32, SimulatorError>(u32::MAX)
        &&& after.searches@ == searches
        &&& memory_after@ == memory@
    } else {
        let field = name_field(search.entries@[search.next_index as int]@);
        let written = accessible_prefix(name_address(data_ptr), field.len() as int);
        &&& after.searches@ == searches.insert(
            data_ptr,
            FileSearch {
                entries: search.entries,
                next_index: (search.next_index + 1) as usize,
            },
        )
        &&& memory_after@ == put_bytes(
            memory@,
            name_address(data_ptr),
            field.take(written),
        )
        &&& result == if written == field.len() {
            Ok::<u32, SimulatorError>(0)
        } else {
            Err::<u32, SimulatorError>(
                SimulatorError::UnmappedAddress {
                    address: name_address(data_ptr).wrapping_add(written as u32),
                },
            )
        }
    }
}

impl SearchTable {
    /// No search.
    pub fn new() -> (table: SearchTable)
        ensures
            table.searches@ == Map::<u32, FileSearch>::empty(),
    {
        SearchTable { searches: HashMap::new() }
    }

    /// Starts a search over the given entries; nothing stands for a pattern that
    /// is not accepted. Returns zero, or all ones where there is nothing to report.
    pub fn begin_file_search(
        &mut self,
        memory: &mut Memory,
        data_ptr: u32,
        entries: Option<Vec<String>>,
    ) -> (result: Result<u32, SimulatorError>)
        ensures
            final(memory).heap_next == old(memory).heap_next,
            old(memory).wf() ==> final(memory).wf(),
            search_begun(
                *old(self),
                *final(self),
                *old(memory),
                *final(memory),
                data_ptr,
                match entries {
                    Some(entries) => Some(entries@),
                    None => None,
                },
                result,
            ),
    {
        let _ = self.searches.remove(&data_ptr);
        if data_ptr == 0 {
            return Ok(u32::MAX);
        }
        let entries = match entries {
            Some(entries) => entries,
            None => {
                return Ok(u32::MAX);
            },
        };
        if entries.len() == 0 {
            return Ok(u32::MAX);
        }
        match write_file_search_name(memory, data_ptr, entries[0].as_str()) {
            Ok(_) => {},
            Err(error) => {
                return Err(error);
            },
        }
        let _ = self.searches.insert(data_ptr, FileSearch { entries, next_index: 1 });
        Ok(0)
    }

    /// Reports the next entry of a search. Returns zero, or all ones behind the last one.
    pub fn next_file_search(&mut self, memory: &mut Memory, data_ptr: u32) -> (result: Result<
        u32,
        SimulatorError,
    >)
        ensures
            final(memory).heap_next == old(memory).heap_next,
            old(memory).wf() ==> final(memory).wf(),
            search_continued(*old(self), *final(self), *old(memory), *final(memory), data_ptr, result),
    {
        let ghost before = self.searches@;
        let search = match self.searches.remove(&data_ptr) {
            Some(search) => search,
            None => {
                assert(self.searches@ =~= before);
                return Ok(u32::MAX);
            },
        };
        let index: usize = search.next_index;
        if index >= search.entries.len() {
            let _ = self.searches.insert(data_ptr, search);
            assert(self.searches@ =~= before);
            return Ok(u32::MAX);
        }
        let result = write_file_search_name(memory, data_ptr, search.entries[index].as_str());
        let _ = self.searches.insert(
            data_ptr,
            FileSearch { entries: search.entries, next_index: index + 1 },
        );
        assert(self.searches@ =~= before.insert(
            data_ptr,
            FileSearch { entries: search.entries, next_index: (index + 1) as usize },
        ));
        match result {
            Ok(_) => Ok(0),
            Err(error) => Err(error),
        }
    }

    /// Ends a search.
    pub fn close_file_search(&mut self, data_ptr: u32) -> (result: u32)
        ensures
            result == 0,
            final(self).searches@ == old(self).searches@.remove(data_ptr),
    {
        let _ = self.searches.remove(&data_ptr);
        0
    }
}

} // verus!
