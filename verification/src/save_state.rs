//! The container of a saved machine state: a header, and the state as an LZ4
//! block, in a buffer of fixed capacity.

use crate::memory::byte_of;
use crate::outside::{
    crc32, crc32_of, lz4_bound, lz4_compress, lz4_decoded, lz4_decompress, lz4_lengths_fit,
};
use vstd::prelude::*;

verus! {

/// Version of the container and of the state in it.
pub const VERSION: u32 = 3;

/// Bytes in front of the payload.
pub const HEADER_SIZE: usize = 32;

/// Longest state that is saved or restored.
pub const MAX_DECODED_SIZE: usize = 0x0800_0000;

/// Fixed capacity that the frontend reserves for a saved state.
pub const SERIALIZED_SIZE: usize = 0x0300_0000;

/// Why a state could not be saved or restored.
#[derive(Clone, Copy, Debug, PartialEq, Eq, Structural)]
pub enum SaveStateError {
    /// The buffer has this length, which is less than the fixed capacity.
    BufferTooSmall(usize),
    /// The state, as given or as declared, has this many bytes: too many.
    DecodedTooLarge(usize),
    /// The compressed state has this many bytes: too many for a container, or for
    /// this host.
    PayloadTooLarge(usize),
    /// There is no room for a header.
    Truncated,
    /// The signature is missing.
    BadSignature,
    /// The container has another version.
    UnsupportedVersion(u32),
    /// The state belongs to other content.
    DifferentContent,
    /// The payload does not fit the input or the fixed capacity.
    BadPayloadLength,
    /// The payload is damaged.
    ChecksumMismatch,
    /// The payload is no LZ4 block of the declared size.
    Malformed,
}

/// The signature `DINGSTAT`.
pub open spec fn magic() -> Seq<u8> {
    seq![0x44, 0x49, 0x4e, 0x47, 0x53, 0x54, 0x41, 0x54]
}

/// A word in little-endian order.
pub open spec fn le_word(value: u32) -> Seq<u8> {
    seq![byte_of(value, 0), byte_of(value, 1), byte_of(value, 2), byte_of(value, 3)]
}

/// The little-endian word at an offset.
pub open spec fn word_in(data: Seq<u8>, offset: int) -> u32 {
    (data[offset] + 0x100 * data[offset + 1] + 0x1_0000 * data[offset + 2] + 0x100_0000
        * data[offset + 3]) as u32
}

/// The header of a container.
pub open spec fn header(
    content_crc32: u32,
    payload_len: u32,
    decoded_len: u32,
    payload_crc32: u32,
) -> Seq<u8> {
    magic() + le_word(VERSION) + le_word(content_crc32) + le_word(payload_len) + le_word(
        decoded_len,
    ) + le_word(payload_crc32) + le_word(0)
}

/// A container of the given length.
pub open spec fn container(
    content_crc32: u32,
    payload: Seq<u8>,
    decoded_len: u32,
    payload_crc32: u32,
    length: nat,
) -> Seq<u8> {
    header(content_crc32, payload.len() as u32, decoded_len, payload_crc32) + payload + Seq::new(
        (length - HEADER_SIZE - payload.len()) as nat,
        |i: int| 0u8,
    )
}

/// What a header says of the payload behind it.
#[derive(Clone, Copy, Debug, PartialEq, Eq, Structural)]
pub struct StateHeader {
    pub payload_len: usize,
    pub decoded_len: usize,
    pub payload_crc32: u32,
}

/// The header of a container, where it is one for this content.
pub open spec fn parsed_header(input: Seq<u8>, expected_content_crc32: u32) -> Result<
    StateHeader,
    SaveStateError,
> {
    let payload_len = word_in(input, 16);
    let decoded_len = word_in(input, 20);
    if input.len() < HEADER_SIZE {
        Err(SaveStateError::Truncated)
    } else if input.take(8) != magic() {
        Err(SaveStateError::BadSignature)
    } else if word_in(input, 8) != VERSION {
        Err(SaveStateError::UnsupportedVersion(word_in(input, 8)))
    } else if word_in(input, 12) != expected_content_crc32 {
        Err(SaveStateError::DifferentContent)
    } else if decoded_len > MAX_DECODED_SIZE {
        Err(SaveStateError::DecodedTooLarge(decoded_len as usize))
    } else if HEADER_SIZE + payload_len > input.len() || HEADER_SIZE + payload_len
        > SERIALIZED_SIZE {
        Err(SaveStateError::BadPayloadLength)
    } else {
        Ok(
            StateHeader {
                payload_len: payload_len as usize,
                decoded_len: decoded_len as usize,
                payload_crc32: word_in(input, 24),
            },
        )
    }
}

/// The state in a container, where it holds one for this content.
pub open spec fn restored(input: Seq<u8>, expected_content_crc32: u32) -> Result<
    Seq<u8>,
    SaveStateError,
> {
    match parsed_header(input, expected_content_crc32) {
        Err(error) => Err(error),
        Ok(header) => {
            let payload = input.subrange(HEADER_SIZE as int, HEADER_SIZE + header.payload_len);
            if crc32_of(payload) != header.payload_crc32 {
                Err(SaveStateError::ChecksumMismatch)
            } else if !lz4_lengths_fit(header.payload_len as int, header.decoded_len as int) {
                Err(SaveStateError::PayloadTooLarge(header.payload_len))
            } else {
                match lz4_decoded(payload, header.decoded_len as nat) {
                    Some(data) => Ok(data),
                    None => Err(SaveStateError::Malformed),
                }
            }
        },
    }
}

/// The fields of a header are where they are expected.
pub proof fn lemma_container(
    content_crc32: u32,
    payload: Seq<u8>,
    decoded_len: u32,
    payload_crc32: u32,
    length: nat,
)
    requires
        HEADER_SIZE + payload.len() <= length,
        payload.len() <= u32::MAX,
    ensures
        ({
            let input = container(content_crc32, payload, decoded_len, payload_crc32, length);
            &&& input.len() == length
            &&& input.take(8) == magic()
            &&& word_in(input, 8) == VERSION
            &&& word_in(input, 12) == content_crc32
            &&& word_in(input, 16) == payload.len()
            &&& word_in(input, 20) == decoded_len
            &&& word_in(input, 24) == payload_crc32
            &&& input.subrange(HEADER_SIZE as int, HEADER_SIZE + payload.len()) == payload
        }),
{
    let input = container(content_crc32, payload, decoded_len, payload_crc32, length);
    let head = header(content_crc32, payload.len() as u32, decoded_len, payload_crc32);
    assert(head.len() == HEADER_SIZE);
    assert(forall|i: int| 0 <= i < HEADER_SIZE ==> input[i] == head[i]);
    assert(input.take(8) =~= magic());
    lemma_word(VERSION);
    lemma_word(content_crc32);
    lemma_word(payload.len() as u32);
    lemma_word(decoded_len);
    lemma_word(payload_crc32);
    assert(word_in(input, 8) == word_in(le_word(VERSION), 0));
    assert(word_in(input, 12) == word_in(le_word(content_crc32), 0));
    assert(word_in(input, 16) == word_in(le_word(payload.len() as u32), 0));
    assert(word_in(input, 20) == word_in(le_word(decoded_len), 0));
    assert(word_in(input, 24) == word_in(le_word(payload_crc32), 0));
    assert(input.subrange(HEADER_SIZE as int, HEADER_SIZE + payload.len()) =~= payload);
}

proof fn lemma_word(value: u32)
    ensures
        word_in(le_word(value), 0) == value,
{
}

/// A state comes back from the container that it was saved in.
pub proof fn law_restore_returns_saved(
    content_crc32: u32,
    state: Seq<u8>,
    payload: Seq<u8>,
    length: nat,
)
    requires
        state.len() <= MAX_DECODED_SIZE,
        payload.len() <= SERIALIZED_SIZE - HEADER_SIZE,
        length >= SERIALIZED_SIZE,
        lz4_decoded(payload, state.len()) == Some(state),
        lz4_lengths_fit(payload.len() as int, state.len() as int),
    ensures
        restored(
            container(
                content_crc32,
                payload,
                state.len() as u32,
                crc32_of(payload),
                length,
            ),
            content_crc32,
        ) == Ok::<Seq<u8>, SaveStateError>(state),
{
    lemma_container(content_crc32, payload, state.len() as u32, crc32_of(payload), length);
}

/// A container is not restored for content with another checksum.
pub proof fn law_other_content_is_rejected(
    content_crc32: u32,
    other_crc32: u32,
    payload: Seq<u8>,
    decoded_len: u32,
    length: nat,
)
    requires
        content_crc32 != other_crc32,
        payload.len() <= SERIALIZED_SIZE - HEADER_SIZE,
        length >= SERIALIZED_SIZE,
    ensures
        restored(
            container(content_crc32, payload, decoded_len, crc32_of(payload), length),
            other_crc32,
        ) == Err::<Seq<u8>, SaveStateError>(SaveStateError::DifferentContent),
{
    lemma_container(content_crc32, payload, decoded_len, crc32_of(payload), length);
}

/// A container whose payload was exchanged for one of the same length with
/// another checksum is not restored.
pub proof fn law_damaged_payload_is_rejected(
    content_crc32: u32,
    payload: Seq<u8>,
    damaged: Seq<u8>,
    decoded_len: u32,
    length: nat,
)
    requires
        damaged.len() == payload.len(),
        crc32_of(damaged) != crc32_of(payload),
        decoded_len <= MAX_DECODED_SIZE,
        payload.len() <= SERIALIZED_SIZE - HEADER_SIZE,
        length >= SERIALIZED_SIZE,
    ensures
        restored(
            container(content_crc32, damaged, decoded_len, crc32_of(payload), length),
            content_crc32,
        ) == Err::<Seq<u8>, SaveStateError>(SaveStateError::ChecksumMismatch),
{
    lemma_container(content_crc32, damaged, decoded_len, crc32_of(payload), length);
}

/// The little-endian word at an offset.
pub fn read_u32(input: &[u8], offset: usize) -> (value: u32)
    requires
        offset + 4 <= input@.len(),
    ensures
        value == word_in(input@, offset as int),
{
    input[offset] as u32 + 0x100 * (input[offset + 1] as u32) + 0x1_0000 * (input[offset + 2] as u32)
        + 0x100_0000 * (input[offset + 3] as u32)
}

fn push_word(bytes: &mut Vec<u8>, value: u32)
    ensures
        final(bytes)@ == old(bytes)@ + le_word(value),
{
    bytes.push((value % 0x100) as u8);
    bytes.push((value / 0x100 % 0x100) as u8);
    bytes.push((value / 0x1_0000 % 0x100) as u8);
    bytes.push((value / 0x100_0000) as u8);
    assert(bytes@ =~= old(bytes)@ + le_word(value));
}

fn push_magic(bytes: &mut Vec<u8>)
    ensures
        final(bytes)@ == old(bytes)@ + magic(),
{
    bytes.push(0x44);
    bytes.push(0x49);
    bytes.push(0x4e);
    bytes.push(0x47);
    bytes.push(0x53);
    bytes.push(0x54);
    bytes.push(0x41);
    bytes.push(0x54);
    assert(bytes@ =~= old(bytes)@ + magic());
}

/// Writes a container with an already compressed state.
pub fn encode_payload(
    payload: &[u8],
    decoded_len: usize,
    payload_crc32: u32,
    content_crc32: u32,
    output: &mut [u8],
) -> (result: Result<(), SaveStateError>)
    requires
        old(output)@.len() >= SERIALIZED_SIZE,
        decoded_len <= MAX_DECODED_SIZE,
    ensures
        payload@.len() > SERIALIZED_SIZE - HEADER_SIZE ==> {
            &&& result == Err::<(), SaveStateError>(
                SaveStateError::PayloadTooLarge(payload@.len() as usize),
            )
            &&& final(output)@ == old(output)@
        },
        payload@.len() <= SERIALIZED_SIZE - HEADER_SIZE ==> {
            &&& result is Ok
            &&& final(output)@ == container(
                content_crc32,
                payload@,
                decoded_len as u32,
                payload_crc32,
                old(output)@.len(),
            )
        },
{
    if payload.len() > SERIALIZED_SIZE - HEADER_SIZE {
        return Err(SaveStateError::PayloadTooLarge(payload.len()));
    }
    let mut head: Vec<u8> = Vec::new();
    push_magic(&mut head);
    push_word(&mut head, VERSION);
    push_word(&mut head, content_crc32);
    push_word(&mut head, payload.len() as u32);
    push_word(&mut head, decoded_len as u32);
    push_word(&mut head, payload_crc32);
    push_word(&mut head, 0);
    assert(head@ =~= header(
        content_crc32,
        payload@.len() as u32,
        decoded_len as u32,
        payload_crc32,
    ));
    assert(head@.len() == HEADER_SIZE);
    let ghost expected = container(
        content_crc32,
        payload@,
        decoded_len as u32,
        payload_crc32,
        output@.len(),
    );
    let mut index: usize = 0;
    while index < output.len()
        invariant
            index <= output@.len(),
            output@.len() == old(output)@.len(),
            output@.len() >= SERIALIZED_SIZE,
            payload@.len() <= SERIALIZED_SIZE - HEADER_SIZE,
            head@.len() == HEADER_SIZE,
            expected.len() == output@.len(),
            expected =~= head@ + payload@ + Seq::new(
                (output@.len() - HEADER_SIZE - payload@.len()) as nat,
                |i: int| 0u8,
            ),
            forall|i: int| 0 <= i < index ==> output@[i] == expected[i],
        decreases output@.len() - index,
    {
        output[index] = if index < HEADER_SIZE {
            head[index]
        } else if index - HEADER_SIZE < payload.len() {
            payload[index - HEADER_SIZE]
        } else {
            0
        };
        index = index + 1;
    }
    assert(output@ =~= expected);
    Ok(())
}

/// Whether a container holds this state for this content.
pub open spec fn holds_state(input: Seq<u8>, content_crc32: u32, state: Seq<u8>) -> bool {
    exists|payload: Seq<u8>|
        {
            &&& payload.len() <= SERIALIZED_SIZE - HEADER_SIZE
            &&& #[trigger] lz4_decoded(payload, state.len()) == Some(state)
            &&& input == container(
                content_crc32,
                payload,
                state.len() as u32,
                crc32_of(payload),
                input.len(),
            )
        }
}

/// Whether a state of this length is restored on this host from every container
/// that it can be saved in.
pub open spec fn reads_back(length: int) -> bool {
    let room = SERIALIZED_SIZE - HEADER_SIZE;
    lz4_lengths_fit(
        if lz4_bound(length) <= room {
            lz4_bound(length)
        } else {
            room
        },
        length,
    )
}

/// A host with 64-bit addresses restores every state that can be saved.
pub proof fn law_large_hosts_read_every_state_back(length: int)
    requires
        0 <= length <= MAX_DECODED_SIZE,
        u32::MAX < usize::MAX,
    ensures
        reads_back(length),
{
}

/// What saving a state does to the buffer for it. A state fails to fit only where
/// its compressed form can be longer than the buffer.
pub open spec fn encoded(
    state: Seq<u8>,
    content_crc32: u32,
    before: Seq<u8>,
    after: Seq<u8>,
    result: Result<(), SaveStateError>,
) -> bool {
    let room = SERIALIZED_SIZE - HEADER_SIZE;
    &&& after.len() == before.len()
    &&& result is Err ==> after == before
    &&& if before.len() < SERIALIZED_SIZE {
        result == Err::<(), SaveStateError>(
            SaveStateError::BufferTooSmall(before.len() as usize),
        )
    } else if state.len() > MAX_DECODED_SIZE {
        result == Err::<(), SaveStateError>(
            SaveStateError::DecodedTooLarge(state.len() as usize),
        )
    } else {
        match result {
            Ok(_) => {
                &&& holds_state(after, content_crc32, state)
                &&& reads_back(state.len() as int) ==> restored(after, content_crc32) == Ok::<
                    Seq<u8>,
                    SaveStateError,
                >(state)
            },
            Err(error) => error matches SaveStateError::PayloadTooLarge(length) && room < length
                && length <= lz4_bound(state.len() as int),
        }
    }
}

/// Saves a state in a container of fixed capacity.
#[verifier::rlimit(60)]
#[verifier::spinoff_prover]
pub fn encode(state: &[u8], content_crc32: u32, output: &mut [u8]) -> (result: Result<
    (),
    SaveStateError,
>)
    ensures
        encoded(state@, content_crc32, old(output)@, final(output)@, result),
{
    if output.len() < SERIALIZED_SIZE {
        return Err(SaveStateError::BufferTooSmall(output.len()));
    }
    if state.len() > MAX_DECODED_SIZE {
        return Err(SaveStateError::DecodedTooLarge(state.len()));
    }
    let payload: Vec<u8> = lz4_compress(state);
    let checksum: u32 = crc32(payload.as_slice());
    let result = encode_payload(payload.as_slice(), state.len(), checksum, content_crc32, output);
    proof {
        if result is Ok && reads_back(state@.len() as int) {
            law_restore_returns_saved(content_crc32, state@, payload@, old(output)@.len());
        }
    }
    result
}

/// Checks the header of a container.
pub fn parse_header(input: &[u8], expected_content_crc32: u32) -> (result: Result<
    StateHeader,
    SaveStateError,
>)
    ensures
        result == parsed_header(input@, expected_content_crc32),
{
    if input.len() < HEADER_SIZE {
        return Err(SaveStateError::Truncated);
    }
    let mut expected: Vec<u8> = Vec::new();
    push_magic(&mut expected);
    assert(expected@ =~= magic());
    let mut index: usize = 0;
    while index < 8
        invariant
            index <= 8,
            expected@ == magic(),
            input@.len() >= HEADER_SIZE,
            forall|i: int| 0 <= i < index ==> input@[i] == magic()[i],
        decreases 8 - index,
    {
        if input[index] != expected[index] {
            assert(input@.take(8)[index as int] != magic()[index as int]);
            return Err(SaveStateError::BadSignature);
        }
        index = index + 1;
    }
    assert(input@.take(8) =~= magic());
    let version: u32 = read_u32(input, 8);
    if version != VERSION {
        return Err(SaveStateError::UnsupportedVersion(version));
    }
    if read_u32(input, 12) != expected_content_crc32 {
        return Err(SaveStateError::DifferentContent);
    }
    let payload_len: usize = read_u32(input, 16) as usize;
    let decoded_len: usize = read_u32(input, 20) as usize;
    if decoded_len > MAX_DECODED_SIZE {
        return Err(SaveStateError::DecodedTooLarge(decoded_len));
    }
    if payload_len > SERIALIZED_SIZE - HEADER_SIZE || payload_len > input.len() - HEADER_SIZE {
        return Err(SaveStateError::BadPayloadLength);
    }
    Ok(StateHeader { payload_len, decoded_len, payload_crc32: read_u32(input, 24) })
}

/// The state, by the checksum of the payload and by what it decompresses to.
pub fn finish_decode(header: &StateHeader, checksum: u32, decompressed: Option<Vec<u8>>) -> (result:
    Result<Vec<u8>, SaveStateError>)
    ensures
        result == if checksum != header.payload_crc32 {
            Err::<Vec<u8>, SaveStateError>(SaveStateError::ChecksumMismatch)
        } else {
            match decompressed {
                Some(data) => Ok::<Vec<u8>, SaveStateError>(data),
                None => Err::<Vec<u8>, SaveStateError>(SaveStateError::Malformed),
            }
        },
{
    if checksum != header.payload_crc32 {
        return Err(SaveStateError::ChecksumMismatch);
    }
    match decompressed {
        Some(data) => Ok(data),
        None => Err(SaveStateError::Malformed),
    }
}

fn lengths_fit(payload_len: usize, decoded_len: usize) -> (fit: bool)
    requires
        payload_len <= SERIALIZED_SIZE,
        decoded_len <= MAX_DECODED_SIZE,
    ensures
        fit == lz4_lengths_fit(payload_len as int, decoded_len as int),
{
    payload_len as u64 * 255 + decoded_len as u64 + 19 <= usize::MAX as u64
}

/// Restores the state in a container, where it holds one for this content.
pub fn decode(input: &[u8], expected_content_crc32: u32) -> (result: Result<
    Vec<u8>,
    SaveStateError,
>)
    ensures
        match restored(input@, expected_content_crc32) {
            Ok(state) => result matches Ok(data) && data@ == state,
            Err(error) => result == Err::<Vec<u8>, SaveStateError>(error),
        },
{
    let header = match parse_header(input, expected_content_crc32) {
        Ok(header) => header,
        Err(error) => {
            return Err(error);
        },
    };
    let payload = vstd::slice::slice_subrange(input, HEADER_SIZE, HEADER_SIZE + header.payload_len);
    let checksum: u32 = crc32(payload);
    if checksum == header.payload_crc32 && !lengths_fit(header.payload_len, header.decoded_len) {
        return Err(SaveStateError::PayloadTooLarge(header.payload_len));
    }
    let decompressed = if checksum != header.payload_crc32 {
        None
    } else {
        match lz4_decompress(payload, header.decoded_len) {
            Ok(data) => Some(data),
            Err(_) => None,
        }
    };
    finish_decode(&header, checksum, decompressed)
}

} // verus!
