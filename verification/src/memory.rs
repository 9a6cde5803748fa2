//! Guest memory: system RAM, the LCD framebuffer window and the device window.
//!
//! Every byte that guest code can load or store natively has a *host address*.
//! RAM starts at host address zero and the framebuffer at
//! [`FRAMEBUFFER_HOST_BASE`]; [`host_address`] says which guest accesses have one.

use crate::error::SimulatorError;
use vstd::prelude::*;

verus! {

/// Bytes of system RAM.
pub const RAM_SIZE: u32 = 0x0200_0000;

/// Width of the LCD in pixels.
pub const SCREEN_WIDTH: u32 = 320;

/// Height of the LCD in pixels.
pub const SCREEN_HEIGHT: u32 = 240;

/// Bytes of one RGB565 frame.
pub const FRAMEBUFFER_SIZE: usize = 153_600;

/// Bytes of guest address space that the framebuffer window covers.
pub const FRAMEBUFFER_MAP_SIZE: u32 = 0x0004_0000;

/// Guest address at which applications find the framebuffer.
pub const VM_LCD_FB_ADDRESS: u32 = 0x1400_0000;

/// Cached alias of the framebuffer.
pub const LCD_FB_KSEG0_ADDRESS: u32 = 0x9400_0000;

/// Uncached alias of the framebuffer.
pub const LCD_FB_KSEG1_ADDRESS: u32 = 0xb400_0000;

/// Host address of the first framebuffer byte.
pub const FRAMEBUFFER_HOST_BASE: u64 = 0x1_0000_0000;

/// Physical address bits of the two unmapped kernel segments.
pub const KSEG_MASK: u32 = 0x1fff_ffff;

/// First physical address of the memory-mapped devices.
pub const DEVICE_BASE: u32 = 0x1000_0000;

/// First physical address behind the memory-mapped devices.
pub const DEVICE_END: u32 = 0x1400_0000;

/// First guest address that the allocator hands out.
pub const HEAP_BASE: u32 = 0x0180_0000;

/// First guest address behind the allocator's area.
pub const HEAP_END: u32 = 0x01f0_0000;

/// Size of one memory access.
#[derive(Clone, Copy, Debug, PartialEq, Eq, Structural)]
pub enum Width {
    Byte,
    Half,
    Word,
}

impl Width {
    /// Number of bytes accessed.
    pub open spec fn size(self) -> int {
        match self {
            Width::Byte => 1,
            Width::Half => 2,
            Width::Word => 4,
        }
    }

    /// Number of bytes accessed.
    pub fn bytes(self) -> (bytes: u32)
        ensures
            bytes == self.size(),
            1 <= bytes <= 4,
    {
        match self {
            Width::Byte => 1,
            Width::Half => 2,
            Width::Word => 4,
        }
    }
}

/// The contents of guest memory.
#[verifier::ext_equal]
pub struct MemoryView {
    pub ram: Seq<u8>,
    pub framebuffer: Seq<u8>,
}

impl MemoryView {
    /// The byte at a host address; zero outside both areas.
    pub open spec fn byte(self, host: int) -> u8 {
        if 0 <= host < self.ram.len() && host < FRAMEBUFFER_HOST_BASE {
            self.ram[host]
        } else if 0 <= host - FRAMEBUFFER_HOST_BASE < self.framebuffer.len() {
            self.framebuffer[host - FRAMEBUFFER_HOST_BASE]
        } else {
            0
        }
    }

    /// The contents after one byte was stored; unchanged outside both areas.
    pub open spec fn with_byte(self, host: int, value: u8) -> MemoryView {
        if 0 <= host < self.ram.len() && host < FRAMEBUFFER_HOST_BASE {
            MemoryView { ram: self.ram.update(host, value), ..self }
        } else if 0 <= host - FRAMEBUFFER_HOST_BASE < self.framebuffer.len() {
            MemoryView {
                framebuffer: self.framebuffer.update(host - FRAMEBUFFER_HOST_BASE, value),
                ..self
            }
        } else {
            self
        }
    }

    /// The little-endian value at a host address.
    pub open spec fn load(self, host: int, width: Width) -> u32 {
        match width {
            Width::Byte => self.byte(host) as u32,
            Width::Half => (self.byte(host) + 0x100 * self.byte(host + 1)) as u32,
            Width::Word => (self.byte(host) + 0x100 * self.byte(host + 1) + 0x1_0000 * self.byte(
                host + 2,
            ) + 0x100_0000 * self.byte(host + 3)) as u32,
        }
    }

    /// The contents after the low bytes of `value` were stored at a host address.
    pub open spec fn store(self, host: int, width: Width, value: u32) -> MemoryView {
        match width {
            Width::Byte => self.with_byte(host, byte_of(value, 0)),
            Width::Half => self.with_byte(host, byte_of(value, 0)).with_byte(
                host + 1,
                byte_of(value, 1),
            ),
            Width::Word => self.with_byte(host, byte_of(value, 0)).with_byte(
                host + 1,
                byte_of(value, 1),
            ).with_byte(host + 2, byte_of(value, 2)).with_byte(host + 3, byte_of(value, 3)),
        }
    }

    /// Both areas have their fixed size.
    pub open spec fn sized(self) -> bool {
        &&& self.ram.len() == RAM_SIZE
        &&& self.framebuffer.len() == FRAMEBUFFER_MAP_SIZE
    }
}

/// Byte number `index` of a word, counted from the least significant.
pub open spec fn byte_of(value: u32, index: int) -> u8 {
    if index == 0 {
        (value % 0x100) as u8
    } else if index == 1 {
        (value / 0x100 % 0x100) as u8
    } else if index == 2 {
        (value / 0x1_0000 % 0x100) as u8
    } else {
        (value / 0x100_0000) as u8
    }
}

/// The physical address behind a guest address.
pub open spec fn physical_address(address: u32) -> u32 {
    if address & 0xe000_0000 == 0x8000_0000 || address & 0xe000_0000 == 0xa000_0000 {
        address & KSEG_MASK
    } else {
        address
    }
}

/// Whether an access lies in the framebuffer window that starts at `base`.
pub open spec fn in_alias(address: u32, base: u32, width: Width) -> bool {
    address.wrapping_sub(base) <= FRAMEBUFFER_MAP_SIZE - width.size()
}

/// Offset of an access in the framebuffer, where one of the windows holds it.
pub open spec fn framebuffer_offset(address: u32, width: Width) -> Option<u32> {
    if in_alias(address, LCD_FB_KSEG1_ADDRESS, width) {
        Some(address.wrapping_sub(LCD_FB_KSEG1_ADDRESS))
    } else if in_alias(address, LCD_FB_KSEG0_ADDRESS, width) {
        Some(address.wrapping_sub(LCD_FB_KSEG0_ADDRESS))
    } else if in_alias(address, VM_LCD_FB_ADDRESS, width) {
        Some(address.wrapping_sub(VM_LCD_FB_ADDRESS))
    } else {
        None
    }
}

/// Host address of a guest access, where plain loads and stores may serve it.
pub open spec fn host_address(address: u32, width: Width) -> Option<u64> {
    if physical_address(address) <= RAM_SIZE - width.size() {
        Some(physical_address(address) as u64)
    } else {
        match framebuffer_offset(address, width) {
            Some(offset) => Some((FRAMEBUFFER_HOST_BASE + offset) as u64),
            None => None,
        }
    }
}

/// Whether a guest access reaches a memory-mapped device.
pub open spec fn is_device(address: u32) -> bool {
    DEVICE_BASE <= physical_address(address) < DEVICE_END
}

/// What a guest read returns: memory contents, zero from a device, or nothing.
pub open spec fn guest_read(memory: MemoryView, address: u32, width: Width) -> Option<u32> {
    match host_address(address, width) {
        Some(host) => Some(memory.load(host as int, width)),
        None => if is_device(address) {
            Some(0)
        } else {
            None
        },
    }
}

/// The contents after a guest write; a device drops it.
pub open spec fn guest_write(
    memory: MemoryView,
    address: u32,
    width: Width,
    value: u32,
) -> Option<MemoryView> {
    match host_address(address, width) {
        Some(host) => Some(memory.store(host as int, width, value)),
        None => if is_device(address) {
            Some(memory)
        } else {
            None
        },
    }
}

/// A host access that [`host_address`] grants lies inside one area.
pub proof fn lemma_host_address_in_bounds(memory: MemoryView, address: u32, width: Width)
    requires
        memory.sized(),
        host_address(address, width) is Some,
    ensures
        ({
            let host = host_address(address, width)->0 as int;
            ||| host + width.size() <= memory.ram.len()
            ||| FRAMEBUFFER_HOST_BASE <= host && host + width.size() <= FRAMEBUFFER_HOST_BASE
                + memory.framebuffer.len()
        }),
{
}

/// A store keeps the sizes of both areas.
pub proof fn lemma_store_keeps_size(memory: MemoryView, host: int, width: Width, value: u32)
    ensures
        memory.store(host, width, value).ram.len() == memory.ram.len(),
        memory.store(host, width, value).framebuffer.len() == memory.framebuffer.len(),
{
}

/// A stored word can be loaded again, and no other byte changes.
pub proof fn lemma_store_word(memory: MemoryView, host: int, value: u32)
    requires
        memory.sized(),
        0 <= host,
        host + 4 <= RAM_SIZE || FRAMEBUFFER_HOST_BASE <= host && host + 4 <= FRAMEBUFFER_HOST_BASE
            + FRAMEBUFFER_MAP_SIZE,
    ensures
        memory.store(host, Width::Word, value).sized(),
        memory.store(host, Width::Word, value).load(host, Width::Word) == value,
        forall|other: int|
            !(host <= other < host + 4) ==> #[trigger] memory.store(
                host,
                Width::Word,
                value,
            ).byte(other) == memory.byte(other),
{
}

/// A read of `width` gives back the low bytes of what a write of that width put there.
pub proof fn law_read_returns_written(memory: MemoryView, address: u32, width: Width, value: u32)
    requires
        memory.sized(),
        host_address(address, width) is Some,
    ensures
        guest_write(memory, address, width, value) is Some,
        guest_read(guest_write(memory, address, width, value)->0, address, width) == Some(
            match width {
                Width::Byte => (value % 0x100) as u32,
                Width::Half => (value % 0x1_0000) as u32,
                Width::Word => value,
            },
        ),
{
    lemma_host_address_in_bounds(memory, address, width);
}

/// Whether a guest access is served at all.
pub open spec fn accessible(address: u32, width: Width) -> bool {
    host_address(address, width) is Some || is_device(address)
}

/// The contents after one guest byte was written, where that is possible.
pub open spec fn put_byte(memory: MemoryView, address: u32, value: u8) -> MemoryView {
    match guest_write(memory, address, Width::Byte, value as u32) {
        Some(after) => after,
        None => memory,
    }
}

/// The contents after `data` was written at consecutive guest addresses.
pub open spec fn put_bytes(memory: MemoryView, address: u32, data: Seq<u8>) -> MemoryView
    decreases data.len(),
{
    if data.len() == 0 {
        memory
    } else {
        put_byte(
            put_bytes(memory, address, data.drop_last()),
            address.wrapping_add((data.len() - 1) as u32),
            data.last(),
        )
    }
}

/// How many of `count` consecutive guest bytes come before the first inaccessible one.
pub open spec fn accessible_prefix(address: u32, count: int) -> int
    decreases count,
{
    if count <= 0 {
        0
    } else {
        let earlier = accessible_prefix(address, count - 1);
        if earlier == count - 1 && accessible(
            address.wrapping_add((count - 1) as u32),
            Width::Byte,
        ) {
            count
        } else {
            earlier
        }
    }
}

/// Whether the first `count` consecutive guest bytes are all accessible.
pub open spec fn bytes_accessible(address: u32, count: int) -> bool {
    accessible_prefix(address, count) == count
}

/// An inaccessible byte bounds every longer prefix.
pub proof fn lemma_prefix_stops(address: u32, stop: int, count: int)
    requires
        0 <= stop < count,
        accessible_prefix(address, stop) == stop,
        !accessible(address.wrapping_add(stop as u32), Width::Byte),
    ensures
        accessible_prefix(address, count) == stop,
    decreases count,
{
    if count > stop + 1 {
        lemma_prefix_stops(address, stop, count - 1);
    }
}

/// Guest address of a half-word behind another one.
pub open spec fn half_address(address: u32, index: int) -> u32 {
    address.wrapping_add(((2 * index) % 0x1_0000_0000) as u32)
}

/// The contents after half-words were written at consecutive guest addresses.
pub open spec fn put_halves(memory: MemoryView, address: u32, words: Seq<u16>) -> MemoryView
    decreases words.len(),
{
    if words.len() == 0 {
        memory
    } else {
        let earlier = put_halves(memory, address, words.drop_last());
        match guest_write(
            earlier,
            half_address(address, words.len() - 1),
            Width::Half,
            words.last() as u32,
        ) {
            Some(after) => after,
            None => earlier,
        }
    }
}

/// How many of `count` consecutive guest half-words come before the first inaccessible one.
pub open spec fn half_prefix(address: u32, count: int) -> int
    decreases count,
{
    if count <= 0 {
        0
    } else {
        let earlier = half_prefix(address, count - 1);
        if earlier == count - 1 && accessible(half_address(address, count - 1), Width::Half) {
            count
        } else {
            earlier
        }
    }
}

proof fn lemma_half_prefix_stops(address: u32, stop: int, count: int)
    requires
        0 <= stop < count,
        half_prefix(address, stop) == stop,
        !accessible(half_address(address, stop), Width::Half),
    ensures
        half_prefix(address, count) == stop,
    decreases count,
{
    if count > stop + 1 {
        lemma_half_prefix_stops(address, stop, count - 1);
    }
}

/// Consecutive guest bytes.
pub open spec fn bytes_at(memory: MemoryView, address: u32, count: nat) -> Seq<u8> {
    Seq::new(
        count,
        |i: int| guest_read(memory, address.wrapping_add(i as u32), Width::Byte)->0 as u8,
    )
}

/// Length of the guest string at an address, from byte number `offset` on: up to
/// a zero or an inaccessible address.
pub open spec fn string_len_from(memory: MemoryView, address: u32, offset: int) -> int
    decreases u32::MAX - offset,
{
    if offset >= u32::MAX {
        offset
    } else {
        match guest_read(memory, address.wrapping_add(offset as u32), Width::Byte) {
            Some(byte) => if byte == 0 {
                offset
            } else {
                string_len_from(memory, address, offset + 1)
            },
            None => offset,
        }
    }
}

/// A size rounded up to the allocator's granularity.
pub open spec fn heap_rounded(size: u32) -> int {
    (size + 7) / 8 * 8
}

/// What an allocation returns: an address, or zero where the heap is exhausted.
pub open spec fn allocation(heap_next: u32, size: u32) -> u32 {
    if heap_next + heap_rounded(size) <= HEAP_END {
        heap_next
    } else {
        0
    }
}

/// Where the free part of the heap starts after an allocation.
pub open spec fn heap_after(heap_next: u32, size: u32) -> u32 {
    if heap_next + heap_rounded(size) <= HEAP_END {
        (heap_next + heap_rounded(size)) as u32
    } else {
        heap_next
    }
}

/// Guest memory with the state of its allocator.
pub struct Memory {
    pub ram: Vec<u8>,
    pub framebuffer: Vec<u8>,
    pub heap_next: u32,
}

fn copy_bytes(target: &mut Vec<u8>, source: &Vec<u8>)
    requires
        old(target)@.len() == source@.len(),
    ensures
        final(target)@ == source@,
{
    let mut index: usize = 0;
    while index < source.len()
        invariant
            index <= source@.len(),
            target@.len() == source@.len(),
            forall|i: int| 0 <= i < index ==> target@[i] == source@[i],
        decreases source@.len() - index,
    {
        target[index] = source[index];
        index = index + 1;
    }
    assert(target@ =~= source@);
}

impl View for Memory {
    type V = MemoryView;

    open spec fn view(&self) -> MemoryView {
        MemoryView { ram: self.ram@, framebuffer: self.framebuffer@ }
    }
}

impl Memory {
    /// Both areas have their fixed size and the allocator stays in its area.
    pub open spec fn wf(&self) -> bool {
        &&& self@.sized()
        &&& HEAP_BASE <= self.heap_next <= HEAP_END
    }

    /// Memory of a machine that was just switched on.
    pub fn new() -> (memory: Memory)
        ensures
            memory.wf(),
            memory.heap_next == HEAP_BASE,
            memory@.ram == Seq::new(RAM_SIZE as nat, |i: int| 0u8),
            memory@.framebuffer == Seq::new(FRAMEBUFFER_MAP_SIZE as nat, |i: int| 0u8),
    {
        let memory = Memory {
            ram: vec![0u8; RAM_SIZE as usize],
            framebuffer: vec![0u8; FRAMEBUFFER_MAP_SIZE as usize],
            heap_next: HEAP_BASE,
        };
        assert(memory.ram@ =~= Seq::new(RAM_SIZE as nat, |i: int| 0u8));
        assert(memory.framebuffer@ =~= Seq::new(FRAMEBUFFER_MAP_SIZE as nat, |i: int| 0u8));
        memory
    }

    /// Takes over the contents of another memory. The buffers stay where they are,
    /// for a frontend that looks into them.
    pub fn copy_state_from(&mut self, other: &Memory)
        requires
            old(self).wf(),
            other.wf(),
        ensures
            final(self).wf(),
            final(self)@ == other@,
            final(self).heap_next == other.heap_next,
    {
        copy_bytes(&mut self.ram, &other.ram);
        copy_bytes(&mut self.framebuffer, &other.framebuffer);
        self.heap_next = other.heap_next;
    }

    /// System RAM as the frontend sees it.
    pub fn system_ram(&self) -> (ram: &[u8])
        ensures
            ram@ == self@.ram,
    {
        self.ram.as_slice()
    }

    /// The framebuffer window as the video subsystem sees it.
    pub fn framebuffer(&self) -> (framebuffer: &[u8])
        ensures
            framebuffer@ == self@.framebuffer,
    {
        self.framebuffer.as_slice()
    }

    /// Host address of a guest access, where plain loads and stores may serve it.
    pub fn host(address: u32, width: Width) -> (host: Option<u64>)
        ensures
            host == host_address(address, width),
    {
        let segment: u32 = address & 0xe000_0000;
        let physical: u32 = if segment == 0x8000_0000 || segment == 0xa000_0000 {
            address & KSEG_MASK
        } else {
            address
        };
        let bytes: u32 = width.bytes();
        if physical <= RAM_SIZE - bytes {
            return Some(physical as u64);
        }
        let limit: u32 = FRAMEBUFFER_MAP_SIZE - bytes;
        let uncached: u32 = address.wrapping_sub(LCD_FB_KSEG1_ADDRESS);
        let cached: u32 = address.wrapping_sub(LCD_FB_KSEG0_ADDRESS);
        let plain: u32 = address.wrapping_sub(VM_LCD_FB_ADDRESS);
        if uncached <= limit {
            Some(FRAMEBUFFER_HOST_BASE + uncached as u64)
        } else if cached <= limit {
            Some(FRAMEBUFFER_HOST_BASE + cached as u64)
        } else if plain <= limit {
            Some(FRAMEBUFFER_HOST_BASE + plain as u64)
        } else {
            None
        }
    }

    /// Whether a guest access reaches a memory-mapped device.
    pub fn device(address: u32) -> (device: bool)
        ensures
            device == is_device(address),
    {
        let segment: u32 = address & 0xe000_0000;
        let physical: u32 = if segment == 0x8000_0000 || segment == 0xa000_0000 {
            address & KSEG_MASK
        } else {
            address
        };
        DEVICE_BASE <= physical && physical < DEVICE_END
    }

    /// The byte at a host address; zero outside both areas.
    pub fn host_byte(&self, host: u64) -> (value: u8)
        ensures
            value == self@.byte(host as int),
    {
        if host < FRAMEBUFFER_HOST_BASE {
            if host < self.ram.len() as u64 {
                self.ram[host as usize]
            } else {
                0
            }
        } else {
            let offset: u64 = host - FRAMEBUFFER_HOST_BASE;
            if offset < self.framebuffer.len() as u64 {
                self.framebuffer[offset as usize]
            } else {
                0
            }
        }
    }

    /// Stores one byte at a host address; nothing happens outside both areas.
    pub fn set_host_byte(&mut self, host: u64, value: u8)
        ensures
            final(self)@ == old(self)@.with_byte(host as int, value),
            final(self).heap_next == old(self).heap_next,
    {
        if host < FRAMEBUFFER_HOST_BASE {
            if host < self.ram.len() as u64 {
                self.ram[host as usize] = value;
            }
        } else {
            let offset: u64 = host - FRAMEBUFFER_HOST_BASE;
            if offset < self.framebuffer.len() as u64 {
                self.framebuffer[offset as usize] = value;
            }
        }
    }

    /// The little-endian value at a host address.
    pub fn host_load(&self, host: u64, width: Width) -> (value: u32)
        requires
            host <= u64::MAX - 4,
        ensures
            value == self@.load(host as int, width),
    {
        match width {
            Width::Byte => self.host_byte(host) as u32,
            Width::Half => self.host_byte(host) as u32 + 0x100 * (self.host_byte(host + 1) as u32),
            Width::Word => self.host_byte(host) as u32 + 0x100 * (self.host_byte(host + 1) as u32)
                + 0x1_0000 * (self.host_byte(host + 2) as u32) + 0x100_0000 * (self.host_byte(
                host + 3,
            ) as u32),
        }
    }

    /// Stores the low bytes of `value` at a host address.
    pub fn host_store(&mut self, host: u64, width: Width, value: u32)
        requires
            host <= u64::MAX - 4,
        ensures
            final(self)@ == old(self)@.store(host as int, width, value),
            final(self).heap_next == old(self).heap_next,
            old(self).wf() ==> final(self).wf(),
    {
        proof {
            lemma_store_keeps_size(self@, host as int, width, value);
        }
        match width {
            Width::Byte => {
                self.set_host_byte(host, (value % 0x100) as u8);
            },
            Width::Half => {
                self.set_host_byte(host, (value % 0x100) as u8);
                self.set_host_byte(host + 1, (value / 0x100 % 0x100) as u8);
            },
            Width::Word => {
                self.set_host_byte(host, (value % 0x100) as u8);
                self.set_host_byte(host + 1, (value / 0x100 % 0x100) as u8);
                self.set_host_byte(host + 2, (value / 0x1_0000 % 0x100) as u8);
                self.set_host_byte(host + 3, (value / 0x100_0000) as u8);
            },
        }
    }

    /// Reads a guest value of the given width.
    pub fn read(&self, address: u32, width: Width) -> (result: Result<u32, SimulatorError>)
        ensures
            match guest_read(self@, address, width) {
                Some(value) => result == Ok::<u32, SimulatorError>(value),
                None => result == Err::<u32, SimulatorError>(
                    SimulatorError::UnmappedAddress { address },
                ),
            },
    {
        match Memory::host(address, width) {
            Some(host) => Ok(self.host_load(host, width)),
            None => {
                if Memory::device(address) {
                    Ok(0)
                } else {
                    Err(SimulatorError::UnmappedAddress { address })
                }
            },
        }
    }

    /// Writes the low bytes of a value at a guest address.
    pub fn write(&mut self, address: u32, width: Width, value: u32) -> (result: Result<
        (),
        SimulatorError,
    >)
        ensures
            final(self).heap_next == old(self).heap_next,
            old(self).wf() ==> final(self).wf(),
            match guest_write(old(self)@, address, width, value) {
                Some(after) => result is Ok && final(self)@ == after,
                None => final(self)@ == old(self)@ && result == Err::<(), SimulatorError>(
                    SimulatorError::UnmappedAddress { address },
                ),
            },
    {
        match Memory::host(address, width) {
            Some(host) => {
                self.host_store(host, width, value);
                Ok(())
            },
            None => {
                if Memory::device(address) {
                    Ok(())
                } else {
                    Err(SimulatorError::UnmappedAddress { address })
                }
            },
        }
    }

    /// Reads a guest byte.
    pub fn read_u8(&self, address: u32) -> (result: Result<u8, SimulatorError>)
        ensures
            match guest_read(self@, address, Width::Byte) {
                Some(value) => result == Ok::<u8, SimulatorError>(value as u8),
                None => result == Err::<u8, SimulatorError>(
                    SimulatorError::UnmappedAddress { address },
                ),
            },
    {
        match self.read(address, Width::Byte) {
            Ok(value) => Ok(value as u8),
            Err(error) => Err(error),
        }
    }

    /// Reads a guest half-word.
    pub fn read_u16(&self, address: u32) -> (result: Result<u16, SimulatorError>)
        ensures
            match guest_read(self@, address, Width::Half) {
                Some(value) => result == Ok::<u16, SimulatorError>(value as u16),
                None => result == Err::<u16, SimulatorError>(
                    SimulatorError::UnmappedAddress { address },
                ),
            },
    {
        match self.read(address, Width::Half) {
            Ok(value) => Ok(value as u16),
            Err(error) => Err(error),
        }
    }

    /// Reads a guest word.
    pub fn read_u32(&self, address: u32) -> (result: Result<u32, SimulatorError>)
        ensures
            match guest_read(self@, address, Width::Word) {
                Some(value) => result == Ok::<u32, SimulatorError>(value),
                None => result == Err::<u32, SimulatorError>(
                    SimulatorError::UnmappedAddress { address },
                ),
            },
    {
        self.read(address, Width::Word)
    }

    /// Reads the instruction at a guest address.
    pub fn fetch_instruction(&self, address: u32) -> (result: Result<u32, SimulatorError>)
        ensures
            match guest_read(self@, address, Width::Word) {
                Some(value) => result == Ok::<u32, SimulatorError>(value),
                None => result == Err::<u32, SimulatorError>(
                    SimulatorError::UnmappedAddress { address },
                ),
            },
    {
        self.read(address, Width::Word)
    }

    /// Writes a guest byte.
    pub fn write_u8(&mut self, address: u32, value: u8) -> (result: Result<(), SimulatorError>)
        ensures
            final(self).heap_next == old(self).heap_next,
            old(self).wf() ==> final(self).wf(),
            final(self)@ == put_byte(old(self)@, address, value),
            accessible(address, Width::Byte) ==> result is Ok,
            !accessible(address, Width::Byte) ==> result == Err::<(), SimulatorError>(
                SimulatorError::UnmappedAddress { address },
            ),
    {
        self.write(address, Width::Byte, value as u32)
    }

    /// Writes a guest half-word.
    pub fn write_u16(&mut self, address: u32, value: u16) -> (result: Result<(), SimulatorError>)
        ensures
            final(self).heap_next == old(self).heap_next,
            old(self).wf() ==> final(self).wf(),
            match guest_write(old(self)@, address, Width::Half, value as u32) {
                Some(after) => result is Ok && final(self)@ == after,
                None => final(self)@ == old(self)@ && result == Err::<(), SimulatorError>(
                    SimulatorError::UnmappedAddress { address },
                ),
            },
    {
        self.write(address, Width::Half, value as u32)
    }

    /// Writes a guest word.
    pub fn write_u32(&mut self, address: u32, value: u32) -> (result: Result<(), SimulatorError>)
        ensures
            final(self).heap_next == old(self).heap_next,
            old(self).wf() ==> final(self).wf(),
            match guest_write(old(self)@, address, Width::Word, value) {
                Some(after) => result is Ok && final(self)@ == after,
                None => final(self)@ == old(self)@ && result == Err::<(), SimulatorError>(
                    SimulatorError::UnmappedAddress { address },
                ),
            },
    {
        self.write(address, Width::Word, value)
    }

    /// Writes bytes at consecutive guest addresses, up to the first inaccessible one.
    pub fn load_data(&mut self, address: u32, data: &[u8]) -> (result: Result<(), SimulatorError>)
        ensures
            final(self).heap_next == old(self).heap_next,
            old(self).wf() ==> final(self).wf(),
            ({
                let written = accessible_prefix(address, data@.len() as int);
                &&& 0 <= written <= data@.len()
                &&& final(self)@ == put_bytes(old(self)@, address, data@.take(written))
                &&& written == data@.len() ==> result is Ok
                &&& written < data@.len() ==> result == Err::<(), SimulatorError>(
                    SimulatorError::UnmappedAddress {
                        address: address.wrapping_add(written as u32),
                    },
                )
            }),
    {
        let mut index: usize = 0;
        assert(data@.take(0) =~= Seq::<u8>::empty());
        while index < data.len()
            invariant
                index <= data@.len(),
                self.heap_next == old(self).heap_next,
                old(self).wf() ==> self.wf(),
                self@ == put_bytes(old(self)@, address, data@.take(index as int)),
                bytes_accessible(address, index as int),
            decreases data@.len() - index,
        {
            let target: u32 = address.wrapping_add(index as u32);
            assert(data@.take(index + 1).drop_last() =~= data@.take(index as int));
            match self.write_u8(target, data[index]) {
                Ok(_) => {},
                Err(error) => {
                    proof {
                        lemma_prefix_stops(address, index as int, data@.len() as int);
                    }
                    return Err(error);
                },
            }
            index = index + 1;
        }
        Ok(())
    }

    /// Reads bytes at consecutive guest addresses.
    pub fn read_bytes(&self, address: u32, count: usize) -> (result: Result<Vec<u8>, SimulatorError>)
        ensures
            ({
                let available = accessible_prefix(address, count as int);
                &&& available == count ==> (result matches Ok(bytes) && bytes@ == bytes_at(
                    self@,
                    address,
                    count as nat,
                ))
                &&& available != count ==> available < count && result == Err::<
                    Vec<u8>,
                    SimulatorError,
                >(SimulatorError::UnmappedAddress { address: address.wrapping_add(available as u32) })
            }),
    {
        let mut bytes: Vec<u8> = Vec::new();
        while bytes.len() < count
            invariant
                bytes@.len() <= count,
                accessible_prefix(address, bytes@.len() as int) == bytes@.len(),
                bytes@ == bytes_at(self@, address, bytes@.len()),
            decreases count - bytes@.len(),
        {
            match self.read_u8(address.wrapping_add(bytes.len() as u32)) {
                Ok(byte) => {
                    let ghost before = bytes@;
                    bytes.push(byte);
                    assert(bytes@ =~= bytes_at(self@, address, bytes@.len()));
                },
                Err(error) => {
                    proof {
                        lemma_prefix_stops(address, bytes@.len() as int, count as int);
                    }
                    return Err(error);
                },
            }
        }
        Ok(bytes)
    }

    /// Allocates guest memory. Returns its address, or zero where the heap is exhausted.
    pub fn malloc(&mut self, size: u32) -> (pointer: u32)
        requires
            old(self).wf(),
        ensures
            final(self).wf(),
            final(self)@ == old(self)@,
            pointer == allocation(old(self).heap_next, size),
            final(self).heap_next == heap_after(old(self).heap_next, size),
    {
        let rounded: u64 = (size as u64 + 7) / 8 * 8;
        if self.heap_next as u64 + rounded <= HEAP_END as u64 {
            let pointer: u32 = self.heap_next;
            self.heap_next = pointer + rounded as u32;
            pointer
        } else {
            0
        }
    }

    /// Returns guest memory. The heap only grows.
    pub fn free(&mut self, _pointer: u32)
        ensures
            *final(self) == *old(self),
    {
    }

    /// Allocates guest memory with what can be read at an older address.
    pub fn realloc(&mut self, pointer: u32, size: u32) -> (result: u32)
        requires
            old(self).wf(),
        ensures
            final(self).wf(),
            result == allocation(old(self).heap_next, size),
            final(self).heap_next == heap_after(old(self).heap_next, size),
            ({
                let kept = bytes_at(
                    old(self)@,
                    pointer,
                    accessible_prefix(pointer, size as int) as nat,
                );
                final(self)@ == if result == 0 || pointer == 0 {
                    old(self)@
                } else {
                    put_bytes(
                        old(self)@,
                        result,
                        kept.take(accessible_prefix(result, kept.len() as int)),
                    )
                }
            }),
    {
        let result: u32 = self.malloc(size);
        if result != 0 && pointer != 0 {
            let kept: Vec<u8> = self.read_available(pointer, size as usize);
            let _ = self.load_data(result, kept.as_slice());
        }
        result
    }

    /// Reads bytes at consecutive guest addresses, up to the first inaccessible one.
    fn read_available(&self, address: u32, count: usize) -> (bytes: Vec<u8>)
        ensures
            bytes@ == bytes_at(self@, address, accessible_prefix(address, count as int) as nat),
    {
        let mut bytes: Vec<u8> = Vec::new();
        while bytes.len() < count
            invariant
                bytes@.len() <= count,
                accessible_prefix(address, bytes@.len() as int) == bytes@.len(),
                bytes@ == bytes_at(self@, address, bytes@.len()),
            decreases count - bytes@.len(),
        {
            match self.read_u8(address.wrapping_add(bytes.len() as u32)) {
                Ok(byte) => {
                    bytes.push(byte);
                    assert(bytes@ =~= bytes_at(self@, address, bytes@.len()));
                },
                Err(_) => {
                    proof {
                        lemma_prefix_stops(address, bytes@.len() as int, count as int);
                    }
                    return bytes;
                },
            }
        }
        bytes
    }

    /// Fills guest memory, up to the first inaccessible address.
    pub fn memset(&mut self, pointer: u32, value: u8, size: u32)
        ensures
            final(self).heap_next == old(self).heap_next,
            old(self).wf() ==> final(self).wf(),
            final(self)@ == put_bytes(
                old(self)@,
                pointer,
                Seq::new(accessible_prefix(pointer, size as int) as nat, |i: int| value),
            ),
    {
        let mut index: u32 = 0;
        assert(Seq::new(0, |i: int| value) =~= Seq::<u8>::empty());
        while index < size
            invariant
                index <= size,
                accessible_prefix(pointer, index as int) == index,
                self.heap_next == old(self).heap_next,
                old(self).wf() ==> self.wf(),
                self@ == put_bytes(
                    old(self)@,
                    pointer,
                    Seq::new(index as nat, |i: int| value),
                ),
            decreases size - index,
        {
            proof {
                let next = Seq::new((index + 1) as nat, |i: int| value);
                assert(next.drop_last() =~= Seq::new(index as nat, |i: int| value));
            }
            match self.write_u8(pointer.wrapping_add(index), value) {
                Ok(_) => {},
                Err(_) => {
                    proof {
                        lemma_prefix_stops(pointer, index as int, size as int);
                    }
                    return ;
                },
            }
            index = index + 1;
        }
    }

    /// Copies guest memory. Nothing is written where the source is not wholly accessible.
    pub fn memcpy(&mut self, destination: u32, source: u32, size: u32) -> (result: Result<
        (),
        SimulatorError,
    >)
        ensures
            final(self).heap_next == old(self).heap_next,
            old(self).wf() ==> final(self).wf(),
            ({
                let readable = accessible_prefix(source, size as int);
                let writable = accessible_prefix(destination, size as int);
                if readable < size {
                    &&& final(self)@ == old(self)@
                    &&& result == Err::<(), SimulatorError>(
                        SimulatorError::UnmappedAddress {
                            address: source.wrapping_add(readable as u32),
                        },
                    )
                } else {
                    &&& 0 <= writable <= size
                    &&& final(self)@ == put_bytes(
                        old(self)@,
                        destination,
                        bytes_at(old(self)@, source, size as nat).take(writable),
                    )
                    &&& writable == size ==> result is Ok
                    &&& writable < size ==> result == Err::<(), SimulatorError>(
                        SimulatorError::UnmappedAddress {
                            address: destination.wrapping_add(writable as u32),
                        },
                    )
                }
            }),
    {
        match self.read_bytes(source, size as usize) {
            Ok(bytes) => self.load_data(destination, bytes.as_slice()),
            Err(error) => Err(error),
        }
    }

    /// Length of a guest string.
    pub fn read_string_len(&self, pointer: u32) -> (length: u32)
        ensures
            length == string_len_from(self@, pointer, 0),
    {
        let mut length: u32 = 0;
        while length < u32::MAX
            invariant
                string_len_from(self@, pointer, 0) == string_len_from(
                    self@,
                    pointer,
                    length as int,
                ),
            decreases u32::MAX - length,
        {
            match self.read_u8(pointer.wrapping_add(length)) {
                Ok(byte) => {
                    if byte == 0 {
                        return length;
                    }
                },
                Err(_) => {
                    return length;
                },
            }
            length = length + 1;
        }
        length
    }

    /// Writes half-words at consecutive guest addresses, up to the first inaccessible one.
    pub fn load_halves(&mut self, address: u32, words: &[u16]) -> (result: Result<
        (),
        SimulatorError,
    >)
        ensures
            final(self).heap_next == old(self).heap_next,
            old(self).wf() ==> final(self).wf(),
            ({
                let written = half_prefix(address, words@.len() as int);
                &&& 0 <= written <= words@.len()
                &&& final(self)@ == put_halves(old(self)@, address, words@.take(written))
                &&& written == words@.len() ==> result is Ok
                &&& written < words@.len() ==> result == Err::<(), SimulatorError>(
                    SimulatorError::UnmappedAddress { address: half_address(address, written) },
                )
            }),
    {
        let mut index: usize = 0;
        assert(words@.take(0) =~= Seq::<u16>::empty());
        while index < words.len()
            invariant
                index <= words@.len(),
                self.heap_next == old(self).heap_next,
                old(self).wf() ==> self.wf(),
                self@ == put_halves(old(self)@, address, words@.take(index as int)),
                half_prefix(address, index as int) == index,
            decreases words@.len() - index,
        {
            assert(words@.take(index + 1).drop_last() =~= words@.take(index as int));
            let offset: u32 = 2 * ((index % 0x8000_0000) as u32);
            assert(offset == (2 * index) % 0x1_0000_0000);
            match self.write_u16(address.wrapping_add(offset), words[index]) {
                Ok(_) => {},
                Err(error) => {
                    proof {
                        lemma_half_prefix_stops(address, index as int, words@.len() as int);
                    }
                    return Err(error);
                },
            }
            index = index + 1;
        }
        Ok(())
    }
}

} // verus!
