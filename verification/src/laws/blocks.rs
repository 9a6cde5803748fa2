//! Runs of bytes in guest memory.

use crate::laws::places::{
    cell, device, law_addresses_that_are_served, law_devices_and_gaps, law_reads_are_little_endian,
    law_writes_are_little_endian, lemma_together, little_endian, same_besides, spot, together,
};
use crate::memory::{
    accessible_prefix, allocation, bytes_at, guest_read, half_address, half_prefix, heap_after,
    put_bytes, put_halves, string_len_from, MemoryView, Width,
};
use vstd::prelude::*;

verus! {

/// The address some bytes behind another one; addresses begin again behind the last one.
pub open spec fn behind(address: u32, distance: int) -> int {
    (address + distance) % 0x1_0000_0000
}

/// Whether an address leads to memory or to a device.
pub open spec fn served(address: int) -> bool {
    spot(address) is Some || device(address)
}

/// The byte that is read at an address; a device reads as zero.
pub open spec fn found(memory: MemoryView, address: int) -> Option<u8> {
    if spot(address) is Some {
        Some(cell(memory, spot(address)->Some_0))
    } else if device(address) {
        Some(0u8)
    } else {
        None
    }
}

/// Whether some bytes lie from a spot on.
pub open spec fn lies_at(memory: MemoryView, first: (bool, int), bytes: Seq<u8>) -> bool {
    forall|i: int| 0 <= i < bytes.len() ==> #[trigger] cell(memory, (first.0, first.1 + i)) == bytes[i]
}

pub proof fn lemma_found(memory: MemoryView, address: u32)
    requires
        memory.sized(),
    ensures
        guest_read(memory, address, Width::Byte) == match found(memory, address as int) {
            Some(byte) => Some(byte as u32),
            None => None,
        },
{
    if spot(address as int) is Some {
        law_reads_are_little_endian(memory, address, Width::Byte);
        reveal_with_fuel(little_endian, 3);
    } else {
        law_devices_and_gaps(memory, address, 0);
    }
}

/// Bytes that are written one behind the other lie there, and every other byte is as it
/// was.
pub proof fn law_blocks_are_written(memory: MemoryView, address: u32, bytes: Seq<u8>)
    requires
        memory.sized(),
        bytes.len() > 0,
        together(address as int, bytes.len() as int),
    ensures
        ({
            let after = put_bytes(memory, address, bytes);
            let first = spot(address as int)->0;
            &&& after.sized()
            &&& same_besides(memory, after, first, bytes.len() as int)
            &&& lies_at(after, first, bytes)
        }),
    decreases bytes.len(),
{
    let rest = bytes.drop_last();
    let earlier = put_bytes(memory, address, rest);
    let first = spot(address as int)->0;
    let last = address.wrapping_add((bytes.len() - 1) as u32);
    if rest.len() > 0 {
        law_blocks_are_written(memory, address, rest);
    }
    law_writes_are_little_endian(earlier, last, Width::Byte, bytes.last() as u32);
    let after = put_bytes(memory, address, bytes);
    assert forall|i: int| 0 <= i < bytes.len() implies #[trigger] cell(
        after,
        (first.0, first.1 + i),
    ) == bytes[i] by {
        if i < rest.len() {
            assert(cell(earlier, (first.0, first.1 + i)) == rest[i]);
        } else {
            let to = spot(last as int)->0;
            assert(to == (first.0, first.1 + i));
            assert(cell(after, (to.0, to.1 + 0)) == bytes.last());
        }
    }
}

/// Words that are written one behind the other lie there, the lower byte of each first,
/// and every other byte is as it was.
pub proof fn law_words_are_written(memory: MemoryView, address: u32, words: Seq<u16>)
    requires
        memory.sized(),
        words.len() > 0,
        together(address as int, 2 * words.len() as int),
    ensures
        ({
            let after = put_halves(memory, address, words);
            let first = spot(address as int)->0;
            &&& after.sized()
            &&& same_besides(memory, after, first, 2 * words.len() as int)
            &&& forall|i: int|
                0 <= i < words.len() ==> {
                    &&& cell(after, (first.0, first.1 + 2 * i)) == #[trigger] words[i] % 256
                    &&& cell(after, (first.0, first.1 + 2 * i + 1)) == words[i] / 256
                }
        }),
        half_prefix(address, words.len() as int) == words.len(),
    decreases words.len(),
{
    let rest = words.drop_last();
    let earlier = put_halves(memory, address, rest);
    let first = spot(address as int)->0;
    let last = half_address(address, words.len() - 1);
    if rest.len() > 0 {
        assert(together(address as int, 2 * rest.len() as int));
        law_words_are_written(memory, address, rest);
    }
    assert(last == address + 2 * (words.len() - 1));
    assert(together(last as int, 2));
    law_writes_are_little_endian(earlier, last, Width::Half, words.last() as u32);
    let to = spot(last as int)->0;
    assert(to == (first.0, first.1 + 2 * (words.len() - 1)));
    let after = put_halves(memory, address, words);
    assert(cell(after, (to.0, to.1 + 0)) == words.last() % 256);
    assert(cell(after, (to.0, to.1 + 1)) == words.last() / 256);
    assert forall|i: int| 0 <= i < words.len() implies {
        &&& cell(after, (first.0, first.1 + 2 * i)) == #[trigger] words[i] % 256
        &&& cell(after, (first.0, first.1 + 2 * i + 1)) == words[i] / 256
    } by {
        if i < rest.len() {
            assert(cell(earlier, (first.0, first.1 + 2 * i)) == rest[i] % 256);
            assert(cell(earlier, (first.0, first.1 + 2 * i + 1)) == rest[i] / 256);
        }
    }
    lemma_together(last, Width::Half);
    assert(crate::memory::accessible(last, Width::Half));
    assert(half_prefix(address, 0) == 0);
    assert(half_prefix(address, words.len() - 1) == words.len() - 1);
}

/// Bytes are read one behind the other.
pub proof fn law_blocks_are_read(memory: MemoryView, address: u32, count: nat)
    requires
        memory.sized(),
        count > 0,
        together(address as int, count as int),
    ensures
        bytes_at(memory, address, count).len() == count,
        lies_at(memory, spot(address as int)->0, bytes_at(memory, address, count)),
{
    let first = spot(address as int)->0;
    let bytes = bytes_at(memory, address, count);
    assert forall|i: int| 0 <= i < bytes.len() implies #[trigger] cell(
        memory,
        (first.0, first.1 + i),
    ) == bytes[i] by {
        lemma_found(memory, address.wrapping_add(i as u32));
    }
}

/// A run of bytes is served up to the first one that is not.
pub proof fn law_runs_end_at_the_first_gap(address: u32, count: int)
    requires
        0 <= count <= 0x1_0000_0000,
    ensures
        ({
            let reach = accessible_prefix(address, count);
            &&& 0 <= reach <= count
            &&& forall|i: int| 0 <= i < reach ==> #[trigger] served(behind(address, i))
            &&& reach < count ==> !served(behind(address, reach))
        }),
    decreases count,
{
    if count > 0 {
        law_runs_end_at_the_first_gap(address, count - 1);
        law_addresses_that_are_served(address.wrapping_add((count - 1) as u32));
        assert(address.wrapping_add((count - 1) as u32) == behind(address, count - 1));
    }
}

/// A run of bytes that lie together is served as a whole.
pub proof fn lemma_run(address: u32, count: int)
    requires
        count > 0,
        together(address as int, count),
    ensures
        accessible_prefix(address, count) == count,
{
    law_runs_end_at_the_first_gap(address, count);
}

proof fn lemma_string(memory: MemoryView, address: u32, offset: int)
    requires
        memory.sized(),
        0 <= offset <= u32::MAX,
    ensures
        ({
            let length = string_len_from(memory, address, offset);
            &&& offset <= length <= u32::MAX
            &&& forall|i: int|
                offset <= i < length ==> {
                    &&& #[trigger] found(memory, behind(address, i)) is Some
                    &&& found(memory, behind(address, i)) != Some(0u8)
                }
            &&& length < u32::MAX ==> found(memory, behind(address, length)) is None || found(
                memory,
                behind(address, length),
            ) == Some(0u8)
        }),
    decreases u32::MAX - offset,
{
    if offset < u32::MAX {
        lemma_found(memory, address.wrapping_add(offset as u32));
        assert(address.wrapping_add(offset as u32) == behind(address, offset));
        lemma_string(memory, address, offset + 1);
    }
}

/// A string ends at the first zero, or where memory ends.
pub proof fn law_strings_end_at_zero(memory: MemoryView, address: u32)
    requires
        memory.sized(),
    ensures
        ({
            let length = string_len_from(memory, address, 0);
            &&& 0 <= length <= u32::MAX
            &&& forall|i: int|
                0 <= i < length ==> {
                    &&& #[trigger] found(memory, behind(address, i)) is Some
                    &&& found(memory, behind(address, i)) != Some(0u8)
                }
            &&& length < u32::MAX ==> found(memory, behind(address, length)) is None || found(
                memory,
                behind(address, length),
            ) == Some(0u8)
        }),
{
    lemma_string(memory, address, 0);
}

/// A block of the heap is given out exactly where it fits. It is aligned to eight bytes
/// and lies behind all earlier ones and before all later ones; where it does not fit the
/// heap stays as it is.
pub proof fn law_heap_blocks_are_apart(heap_next: u32, size: u32, later: u32)
    requires
        0x0180_0000 <= heap_next <= 0x01f0_0000,
        heap_next % 8 == 0,
    ensures
        ({
            let block = allocation(heap_next, size);
            let next = heap_after(heap_next, size);
            &&& next % 8 == 0
            &&& heap_next <= next <= 0x01f0_0000
            &&& block == 0 <==> heap_next + size > 0x01f0_0000
            &&& block == 0 ==> next == heap_next
            &&& block != 0 ==> {
                &&& block % 8 == 0
                &&& heap_next <= block
                &&& block + size <= next < block + size + 8
                &&& allocation(next, later) == 0 || allocation(next, later) >= block + size
            }
        }),
{
}

} // verus!
