//! Where guest addresses lead.

use crate::memory::{accessible, guest_read, guest_write, host_address, MemoryView, Width};
use vstd::prelude::*;

verus! {

/// The byte behind a guest address: whether it is one of the picture's rather than of
/// system memory, and its number there. System memory is seen at three addresses, and
/// so is the picture.
pub open spec fn spot(address: int) -> Option<(bool, int)> {
    if 0 <= address < 0x0200_0000 {
        Some((false, address))
    } else if 0x8000_0000 <= address < 0x8200_0000 {
        Some((false, address - 0x8000_0000))
    } else if 0xa000_0000 <= address < 0xa200_0000 {
        Some((false, address - 0xa000_0000))
    } else if 0x1400_0000 <= address < 0x1404_0000 {
        Some((true, address - 0x1400_0000))
    } else if 0x9400_0000 <= address < 0x9404_0000 {
        Some((true, address - 0x9400_0000))
    } else if 0xb400_0000 <= address < 0xb404_0000 {
        Some((true, address - 0xb400_0000))
    } else {
        None
    }
}

/// Whether an address is one of a device.
pub open spec fn device(address: int) -> bool {
    ||| 0x1000_0000 <= address < 0x1400_0000
    ||| 0x9000_0000 <= address < 0x9400_0000
    ||| 0xb000_0000 <= address < 0xb400_0000
}

/// The byte at a spot.
pub open spec fn cell(memory: MemoryView, spot: (bool, int)) -> u8 {
    if spot.0 {
        memory.framebuffer[spot.1]
    } else {
        memory.ram[spot.1]
    }
}

/// Whether so many bytes from an address on lie next to each other in one area.
pub open spec fn together(address: int, size: int) -> bool {
    spot(address) matches Some((picture, first)) && spot(address + size - 1) == Some(
        (picture, first + size - 1),
    )
}

/// Whether memory holds at an address what it held, but for some bytes of one area.
pub open spec fn same_besides(
    before: MemoryView,
    after: MemoryView,
    first: (bool, int),
    size: int,
) -> bool {
    &&& after.ram.len() == before.ram.len()
    &&& after.framebuffer.len() == before.framebuffer.len()
    &&& forall|i: int|
        0 <= i < before.ram.len() && !(!first.0 && first.1 <= i < first.1 + size)
            ==> #[trigger] after.ram[i] == before.ram[i]
    &&& forall|i: int|
        0 <= i < before.framebuffer.len() && !(first.0 && first.1 <= i < first.1 + size)
            ==> #[trigger] after.framebuffer[i] == before.framebuffer[i]
}

/// The number that bytes stand for, the least significant first.
pub open spec fn little_endian(memory: MemoryView, first: (bool, int), size: int) -> int
    decreases size,
{
    if size <= 0 {
        0
    } else {
        cell(memory, first) + 0x100 * little_endian(memory, (first.0, first.1 + 1), size - 1)
    }
}

/// A byte of a word, the least significant first.
pub open spec fn byte_in(word: u32, index: int) -> int {
    if index == 0 {
        word as int % 0x100
    } else if index == 1 {
        word as int / 0x100 % 0x100
    } else if index == 2 {
        word as int / 0x1_0000 % 0x100
    } else {
        word as int / 0x100_0000 % 0x100
    }
}

/// Which addresses have which upper bits.
pub proof fn lemma_segments(address: u32)
    by (bit_vector)
    ensures
        address & 0xe000_0000 == 0x8000_0000 <==> 0x8000_0000 <= address < 0xa000_0000,
        address & 0xe000_0000 == 0xa000_0000 <==> 0xa000_0000 <= address < 0xc000_0000,
        address & 0x1fff_ffff == address % 0x2000_0000,
{
}

/// Bytes that lie together in one area are accessed there.
pub proof fn lemma_together(address: u32, width: Width)
    requires
        together(address as int, width.size()),
    ensures
        ({
            let (picture, first) = spot(address as int)->0;
            host_address(address, width) == Some(
                (if picture {
                    0x1_0000_0000 + first
                } else {
                    first
                }) as u64,
            )
        }),
{
    lemma_segments(address);
}

/// A guest address is served exactly where it leads to memory or to a device.
pub proof fn law_addresses_that_are_served(address: u32)
    ensures
        accessible(address, Width::Byte) <==> spot(address as int) is Some || device(
            address as int,
        ),
{
    lemma_segments(address);
}

/// Reading gives the bytes from an address on, the least significant first, as a number
/// without a sign.
pub proof fn law_reads_are_little_endian(memory: MemoryView, address: u32, width: Width)
    requires
        memory.sized(),
        together(address as int, width.size()),
    ensures
        guest_read(memory, address, width) == Some(
            little_endian(memory, spot(address as int)->0, width.size()) as u32,
        ),
        0 <= little_endian(memory, spot(address as int)->0, width.size()) <= u32::MAX,
{
    lemma_together(address, width);
    reveal_with_fuel(little_endian, 5);
}

/// Writing puts the bytes of a number from an address on, the least significant first,
/// and changes no other byte, wherever it is seen.
pub proof fn law_writes_are_little_endian(
    memory: MemoryView,
    address: u32,
    width: Width,
    word: u32,
)
    requires
        memory.sized(),
        together(address as int, width.size()),
    ensures
        ({
            let first = spot(address as int)->0;
            guest_write(memory, address, width, word) matches Some(after) && {
                &&& same_besides(memory, after, first, width.size())
                &&& forall|i: int|
                    0 <= i < width.size() ==> #[trigger] cell(after, (first.0, first.1 + i))
                        == byte_in(word, i)
            }
        }),
{
    lemma_together(address, width);
}

/// A device reads as zero and takes writes without effect. Where there is neither
/// memory nor a device, nothing is read or written.
pub proof fn law_devices_and_gaps(memory: MemoryView, address: u32, word: u32)
    requires
        spot(address as int) is None,
    ensures
        guest_read(memory, address, Width::Byte) == if device(address as int) {
            Some(0u32)
        } else {
            None
        },
        guest_write(memory, address, Width::Byte, word) == if device(address as int) {
            Some(memory)
        } else {
            None
        },
{
    lemma_segments(address);
}

} // verus!
