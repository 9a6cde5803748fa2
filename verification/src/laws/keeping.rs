//! What is recorded, kept and patched.

use crate::cpu::{CpuState, UnknownInstructionPolicy};
use crate::diagnostics::{
    buffer_recorded, frame_recorded, hex_word, lemma_word_digits, shared, switched, with_frame,
    with_line, DiagnosticSession, Diagnostics, FrameTimes, FrameTiming, ReportRequest,
};
use crate::error::SimulatorError;
use crate::game_enhancements::{
    first_obstacle, full_patches, patched, trial_patches, InstructionPatch,
};
use crate::isa::REGISTER_COUNT;
use crate::laws::formatting::{law_digits_read_back, read_digits};
use crate::laws::registers::{
    is_immediate_form, law_immediate_operands, leaves, lemma_immediate_form, lemma_leaves, put,
};
use crate::laws::texts::number_at;
use crate::memory::{guest_read, MemoryView, Width};
use crate::save_state::{
    container, le_word, lemma_container, magic, parsed_header, word_in, SaveStateError, StateHeader,
};
use crate::text::{digits, repeated};
use crate::unknown_hle::{
    law_one_entry_per_name, place_of, recorded, strictly_ordered, unknown_recorded, UnknownHleLog,
    UnknownHlePolicy,
};
use vstd::prelude::*;

verus! {

// Figures.

/// Whether a largest value takes in one more.
pub open spec fn largest_of(before: u128, value: u128, after: u128) -> bool {
    &&& after >= before && after >= value
    &&& after == before || after == value
}

/// A frame adds its times to the totals, and to the largest ones where they are larger.
pub proof fn law_frame_times_add_up(timing: FrameTiming, times: FrameTimes)
    requires
        timing.frames < u64::MAX,
        timing.tick_total_us + times.tick_us <= u128::MAX,
        timing.run_total_us + times.run_us <= u128::MAX,
        timing.video_total_us + times.video_us <= u128::MAX,
        timing.audio_total_us + times.audio_us <= u128::MAX,
    ensures
        ({
            let after = with_frame(timing, times);
            &&& after.frames == timing.frames + 1
            &&& after.tick_total_us == timing.tick_total_us + times.tick_us
            &&& after.run_total_us == timing.run_total_us + times.run_us
            &&& after.video_total_us == timing.video_total_us + times.video_us
            &&& after.audio_total_us == timing.audio_total_us + times.audio_us
            &&& largest_of(timing.tick_max_us, times.tick_us, after.tick_max_us)
            &&& largest_of(timing.run_max_us, times.run_us, after.run_max_us)
            &&& largest_of(timing.video_max_us, times.video_us, after.video_max_us)
            &&& largest_of(timing.audio_max_us, times.audio_us, after.audio_max_us)
        }),
{
}

/// An average is the whole number of times that the count goes into the total.
pub proof fn law_averages(total: int, count: int)
    requires
        total >= 0,
        count > 0,
    ensures
        shared(total, count) * count <= total < (shared(total, count) + 1) * count,
        shared(total, 0) == 0,
{
    let average = total / count;
    assert(average * count <= total < (average + 1) * count) by (nonlinear_arith)
        requires
            count > 0,
            average == total / count,
    ;
}

/// A frame counts the sound that was asked for and taken, and a write as short where less
/// was taken. The recent figures start again behind every sixty frames.
pub proof fn law_frames_are_recorded(
    session: DiagnosticSession,
    times: FrameTimes,
    requested: usize,
    accepted: usize,
)
    requires
        session.audio_frames_requested + requested <= u64::MAX,
        session.audio_frames_accepted + accepted <= u64::MAX,
        session.audio_short_writes < u64::MAX,
    ensures
        ({
            let after = frame_recorded(session, times, requested, accepted);
            &&& after.audio_frames_requested == session.audio_frames_requested + requested
            &&& after.audio_frames_accepted == session.audio_frames_accepted + accepted
            &&& after.audio_short_writes == session.audio_short_writes + if accepted < requested {
                1int
            } else {
                0
            }
            &&& after.total == with_frame(session.total, times)
            &&& session.recent.frames < 60 ==> after.recent == with_frame(session.recent, times)
            &&& session.recent.frames >= 60 ==> {
                &&& after.recent.frames == 1
                &&& after.recent.tick_total_us == times.tick_us
                &&& after.recent.run_total_us == times.run_us
                &&& after.recent.video_total_us == times.video_us
                &&& after.recent.audio_total_us == times.audio_us
                &&& after.recent.tick_max_us == times.tick_us
            }
        }),
{
}

/// A report on the sound buffer counts once, and its occupancy in the total, the least
/// and the largest.
pub proof fn law_sound_buffers_are_recorded(
    session: DiagnosticSession,
    active: bool,
    occupancy: u32,
    underrun_likely: bool,
)
    requires
        session.audio_buffer_status_callbacks < u64::MAX,
        session.audio_buffer_active_callbacks < u64::MAX,
        session.audio_buffer_underrun_likely < u64::MAX,
        session.audio_buffer_occupancy_total + occupancy <= u64::MAX,
    ensures
        ({
            let after = buffer_recorded(session, active, occupancy, underrun_likely);
            let least = after.audio_buffer_occupancy_min;
            &&& after.audio_buffer_status_callbacks == session.audio_buffer_status_callbacks + 1
            &&& after.audio_buffer_active_callbacks == session.audio_buffer_active_callbacks
                + if active {
                1int
            } else {
                0
            }
            &&& after.audio_buffer_underrun_likely == session.audio_buffer_underrun_likely
                + if underrun_likely {
                1int
            } else {
                0
            }
            &&& after.audio_buffer_occupancy_total == session.audio_buffer_occupancy_total
                + occupancy
            &&& largest_of(
                session.audio_buffer_occupancy_max as u128,
                occupancy as u128,
                after.audio_buffer_occupancy_max as u128,
            )
            &&& least is Some && least->0 <= occupancy
            &&& session.audio_buffer_occupancy_min is None ==> least == Some(occupancy)
            &&& session.audio_buffer_occupancy_min matches Some(earlier) ==> least->0 <= earlier && (
            least->0 == earlier || least->0 == occupancy)
        }),
{
}

/// A word is written as eight hexadecimal digits behind `0x`, which read back as it.
pub proof fn law_words_in_reports(word: u32)
    ensures
        ({
            let text = hex_word(word);
            &&& text.len() == 10
            &&& text[0] == '0' && text[1] == 'x'
            &&& read_digits(text.skip(2), 16) == word
        }),
{
    let plain = digits(word as nat, 16, false);
    law_digits_read_back(word as nat, 16, false);
    lemma_word_digits(word);
    reveal_strlit("0x");
    assert("0x"@.len() == 2 && "0x"@[0] == '0' && "0x"@[1] == 'x');
    let zeros = repeated('0', (8 - plain.len()) as nat);
    assert(hex_word(word).skip(2) =~= zeros + plain);
    lemma_zeros(zeros, plain);
}

proof fn lemma_zeros(zeros: Seq<char>, plain: Seq<char>)
    requires
        forall|i: int| 0 <= i < zeros.len() ==> #[trigger] zeros[i] == '0',
    ensures
        read_digits(zeros + plain, 16) == read_digits(plain, 16),
    decreases zeros.len() + plain.len(),
{
    if plain.len() > 0 {
        assert((zeros + plain).drop_last() =~= zeros + plain.drop_last());
        lemma_zeros(zeros, plain.drop_last());
    } else if zeros.len() > 0 {
        assert(zeros + plain =~= zeros);
        assert(zeros.drop_last() + plain =~= zeros.drop_last());
        lemma_zeros(zeros.drop_last(), plain);
        assert(zeros.last() == '0');
    } else {
        assert(zeros + plain =~= plain);
    }
}

/// A line of a report is a key, an equals sign, a value and the end of the line, behind
/// what there was.
pub proof fn law_lines_of_reports(text: Seq<char>, key: Seq<char>, value: Seq<char>)
    ensures
        with_line(text, key, value) == text + key + seq!['='] + value + seq!['\n'],
{
    assert(with_line(text, key, value) =~= text + key + seq!['='] + value + seq!['\n']);
}

/// Collecting starts with nothing counted, and only where a report can be written.
pub proof fn law_collecting_starts_anew(
    before: Diagnostics,
    after: Diagnostics,
    request: ReportRequest,
)
    requires
        switched(before, after, true, request),
        before.session is Some,
        !before.session->0.enabled,
    ensures
        before.session->0.path is None ==> !after.enabled && request
            == ReportRequest::NoDirectory,
        before.session->0.path is Some ==> {
            let session = after.session->0;
            &&& after.enabled && after.session is Some && session.enabled
            &&& request == ReportRequest::Write
            &&& session.total.frames == 0 && session.recent.frames == 0
            &&& session.total.tick_total_us == 0 && session.recent.tick_total_us == 0
            &&& session.audio_frames_requested == 0 && session.audio_frames_accepted == 0
            &&& session.audio_buffer_status_callbacks == 0
            &&& session.audio_buffer_occupancy_min is None
            &&& session.path == before.session->0.path
        },
{
}

// Saved states.

/// A container holds the signature, then in words of four bytes its version, the checksum
/// of the content, the lengths of the payload and of the state, and the checksum of the
/// payload. That follows at byte 32, and zeros behind it.
pub proof fn law_layout_of_saved_states(
    content_crc32: u32,
    payload: Seq<u8>,
    decoded_len: u32,
    payload_crc32: u32,
    length: nat,
)
    requires
        32 + payload.len() <= length,
        payload.len() <= u32::MAX,
    ensures
        ({
            let bytes = container(content_crc32, payload, decoded_len, payload_crc32, length);
            &&& bytes.len() == length
            &&& bytes[0] as char == 'D' && bytes[1] as char == 'I' && bytes[2] as char == 'N'
                && bytes[3] as char == 'G'
            &&& bytes[4] as char == 'S' && bytes[5] as char == 'T' && bytes[6] as char == 'A'
                && bytes[7] as char == 'T'
            &&& number_at(bytes, 8) == 3
            &&& number_at(bytes, 12) == content_crc32
            &&& number_at(bytes, 16) == payload.len()
            &&& number_at(bytes, 20) == decoded_len
            &&& number_at(bytes, 24) == payload_crc32
            &&& number_at(bytes, 28) == 0
            &&& forall|i: int| 0 <= i < payload.len() ==> #[trigger] payload[i] == bytes[32 + i]
            &&& forall|i: int| 32 + payload.len() <= i < length ==> #[trigger] bytes[i] == 0
        }),
{
    let bytes = container(content_crc32, payload, decoded_len, payload_crc32, length);
    lemma_container(content_crc32, payload, decoded_len, payload_crc32, length);
    lemma_number(bytes, 8);
    lemma_number(bytes, 12);
    lemma_number(bytes, 16);
    lemma_number(bytes, 20);
    lemma_number(bytes, 24);
    lemma_container_ends(content_crc32, payload, decoded_len, payload_crc32, length);
    let first = bytes.take(8);
    assert(forall|i: int| 0 <= i < 8 ==> first[i] == bytes[i]);
    let name = magic();
    assert(name[0] == 0x44 && name[1] == 0x49 && name[2] == 0x4e && name[3] == 0x47 && name[4]
        == 0x53 && name[5] == 0x54 && name[6] == 0x41 && name[7] == 0x54);
    let part = bytes.subrange(32, 32 + payload.len() as int);
    assert forall|i: int| 0 <= i < payload.len() implies #[trigger] payload[i] == bytes[32 + i] by {
        assert(part[i] == bytes[32 + i]);
    }
}

proof fn lemma_number(bytes: Seq<u8>, at: int)
    ensures
        word_in(bytes, at) == number_at(bytes, at),
{
}

proof fn lemma_container_ends(
    content_crc32: u32,
    payload: Seq<u8>,
    decoded_len: u32,
    payload_crc32: u32,
    length: nat,
)
    requires
        32 + payload.len() <= length,
    ensures
        ({
            let bytes = container(content_crc32, payload, decoded_len, payload_crc32, length);
            &&& number_at(bytes, 28) == 0
            &&& forall|i: int| 32 + payload.len() <= i < length ==> #[trigger] bytes[i] == 0
        }),
{
    let bytes = container(content_crc32, payload, decoded_len, payload_crc32, length);
    let zero = le_word(0);
    assert(zero[0] == 0 && zero[1] == 0 && zero[2] == 0 && zero[3] == 0);
    assert(bytes[28] == zero[0] && bytes[29] == zero[1] && bytes[30] == zero[2] && bytes[31]
        == zero[3]);
}

/// Why a container is refused: it has no whole header, another signature or version, other
/// content, a state of more than 128 times 1048576 bytes, or a payload that does not fit
/// in it or in the room for a state. The first of these is told, and otherwise it is read.
pub proof fn law_containers_that_are_refused(input: Seq<u8>, content_crc32: u32)
    ensures
        ({
            let parsed = parsed_header(input, content_crc32);
            let signed_ = forall|i: int| 0 <= i < 8 ==> #[trigger] input[i] == magic()[i];
            let refused = |error: SaveStateError|
                parsed == Err::<StateHeader, SaveStateError>(error);
            &&& input.len() < 32 ==> refused(SaveStateError::Truncated)
            &&& input.len() >= 32 && !signed_ ==> refused(SaveStateError::BadSignature)
            &&& input.len() >= 32 && signed_ ==> {
                let version = number_at(input, 8);
                let content = number_at(input, 12);
                let payload = number_at(input, 16);
                let decoded = number_at(input, 20);
                let fits = 32 + payload <= input.len() && 32 + payload <= 48 * 1048576;
                &&& version != 3 ==> refused(SaveStateError::UnsupportedVersion(version as u32))
                &&& version == 3 && content != content_crc32 ==> refused(
                    SaveStateError::DifferentContent,
                )
                &&& version == 3 && content == content_crc32 && decoded > 128 * 1048576 ==> refused(
                    SaveStateError::DecodedTooLarge(decoded as usize),
                )
                &&& version == 3 && content == content_crc32 && decoded <= 128 * 1048576 && !fits
                    ==> refused(SaveStateError::BadPayloadLength)
                &&& version == 3 && content == content_crc32 && decoded <= 128 * 1048576 && fits
                    ==> {
                    &&& parsed is Ok
                    &&& parsed->Ok_0.payload_len == payload
                    &&& parsed->Ok_0.decoded_len == decoded
                    &&& parsed->Ok_0.payload_crc32 == number_at(input, 24)
                }
            }
        }),
{
    if input.len() >= 32 {
        lemma_number(input, 8);
        lemma_number(input, 12);
        lemma_number(input, 16);
        lemma_number(input, 20);
        lemma_number(input, 24);
        if forall|i: int| 0 <= i < 8 ==> #[trigger] input[i] == magic()[i] {
            assert(input.take(8) =~= magic());
        }
        if input.take(8) == magic() {
            assert forall|i: int| 0 <= i < 8 implies #[trigger] input[i] == magic()[i] by {
                assert(input.take(8)[i] == input[i]);
            }
        }
    }
}

// Patches.

proof fn lemma_obstacle(memory: MemoryView, patches: Seq<InstructionPatch>, from: int)
    requires
        0 <= from <= patches.len(),
    ensures
        match first_obstacle(memory, patches, from) {
            None => forall|i: int|
                from <= i < patches.len() ==> {
                    let found = guest_read(memory, (#[trigger] patches[i]).address, Width::Word);
                    found == Some(patches[i].original) || found == Some(patches[i].replacement)
                },
            Some(error) => exists|i: int|
                {
                    let found = guest_read(memory, (#[trigger] patches[i]).address, Width::Word);
                    &&& from <= i < patches.len()
                    &&& found != Some(patches[i].original) && found != Some(
                        patches[i].replacement,
                    )
                },
        },
    decreases patches.len() - from,
{
    if from < patches.len() {
        lemma_obstacle(memory, patches, from + 1);
        let found = guest_read(memory, patches[from].address, Width::Word);
        if first_obstacle(memory, patches, from) is Some {
            if found == Some(patches[from].original) || found == Some(patches[from].replacement) {
                let i = choose|i: int|
                    {
                        let found = guest_read(
                            memory,
                            (#[trigger] patches[i]).address,
                            Width::Word,
                        );
                        &&& from + 1 <= i < patches.len()
                        &&& found != Some(patches[i].original) && found != Some(
                            patches[i].replacement,
                        )
                    };
                assert(from <= i < patches.len());
            }
        }
    }
}

/// Patches are refused exactly where one of them finds another instruction than the one
/// that it replaces or has put there.
pub proof fn law_patches_are_refused(memory: MemoryView, patches: Seq<InstructionPatch>)
    ensures
        first_obstacle(memory, patches, 0) is None <==> forall|i: int|
            0 <= i < patches.len() ==> {
                let found = guest_read(memory, (#[trigger] patches[i]).address, Width::Word);
                found == Some(patches[i].original) || found == Some(patches[i].replacement)
            },
{
    lemma_obstacle(memory, patches, 0);
}

/// Whether an instruction loads a number into a register, and does nothing else.
pub open spec fn loads_number(
    state: CpuState,
    memory: MemoryView,
    policy: UnknownInstructionPolicy,
    instruction: u32,
    register: int,
    number: u32,
) -> bool {
    exists|after: Seq<u32>|
        #[trigger] leaves(state, memory, policy, instruction, after) && put(
            state.regs,
            after,
            register,
            number,
        )
}

proof fn lemma_loads(
    state: CpuState,
    memory: MemoryView,
    policy: UnknownInstructionPolicy,
    instruction: u32,
    opcode: u32,
    register: u32,
    immediate: u32,
    number: u32,
)
    requires
        state.regs.len() == REGISTER_COUNT,
        is_immediate_form(instruction, opcode, 0, register, immediate),
        0 < register,
        opcode == 0x0f && number == immediate * 0x1_0000 || opcode == 0x0d && number == immediate
            || opcode == 0x09 && number == immediate && immediate < 0x8000,
    ensures
        loads_number(state, memory, policy, instruction, register as int, number),
{
    law_immediate_operands(state, memory, policy, instruction, opcode, 0, register, immediate);
    lemma_immediate_form(instruction, opcode, 0, register, immediate);
    lemma_leaves(state, memory, policy, instruction);
    assert(0u32 | immediate == immediate) by (bit_vector);
    let after = crate::isa::register_effect(state.regs, instruction);
    assert(leaves(state, memory, policy, instruction, after));
    assert(after[register as int] == number);
}

/// The patches of each release halve the step of time, from 65536 to 32768, and double
/// the divider of the timer, from 20 to 40.
pub proof fn law_patches_double_the_frame_rate(
    state: CpuState,
    memory: MemoryView,
    policy: UnknownInstructionPolicy,
    patches: Seq<InstructionPatch>,
)
    requires
        state.regs.len() == REGISTER_COUNT,
        patches == trial_patches() || patches == full_patches(),
    ensures
        patches.len() == 2,
        loads_number(state, memory, policy, patches[0].original, 2, 65536),
        loads_number(state, memory, policy, patches[0].replacement, 2, 32768),
        loads_number(state, memory, policy, patches[1].original, 3, 20),
        loads_number(state, memory, policy, patches[1].replacement, 3, 40),
{
    lemma_loads(state, memory, policy, 0x3c02_0001, 0x0f, 2, 1, 65536);
    lemma_loads(state, memory, policy, 0x3402_8000, 0x0d, 2, 0x8000, 32768);
    lemma_loads(state, memory, policy, 0x2403_0014, 0x09, 3, 20, 20);
    lemma_loads(state, memory, policy, 0x2403_0028, 0x09, 3, 40, 40);
}

// Unknown functions.

/// A call of an unknown function is counted under its name. The first one is kept with
/// its arguments and with the address of the call, which lies eight bytes before the
/// address that it returns to; the entries of other functions stay.
pub proof fn law_unknown_functions_are_counted(
    before: UnknownHleLog,
    after: UnknownHleLog,
    regs: Seq<u32>,
    name: Seq<char>,
    import_address: u32,
    return_address: u32,
    result: Result<(), SimulatorError>,
    index: int,
)
    requires
        regs.len() == REGISTER_COUNT,
        strictly_ordered(before.calls@),
        unknown_recorded(before, after, regs, name, import_address, return_address, result),
        0 <= index < before.calls@.len(),
        before.calls@[index].count < u64::MAX,
    ensures
        before.calls@[index].name@ == name ==> {
            let call = after.calls@[index];
            &&& after.calls@.len() == before.calls@.len()
            &&& call.name@ == name
            &&& call.count == before.calls@[index].count + 1
            &&& call.first_pc == before.calls@[index].first_pc
            &&& call.first_arguments == before.calls@[index].first_arguments
        },
        before.calls@[index].name@ != name ==> after.calls@.contains(before.calls@[index]),
{
    let calls = before.calls@;
    if calls[index].name@ == name {
        law_one_entry_per_name(calls, name, index);
    } else {
        let place = place_of(calls, name, 0);
        crate::unknown_hle::lemma_place(calls, name, 0);
        if recorded(calls, name) {
            assert(place != index);
            assert(after.calls@[index] == calls[index]);
        } else if index < place {
            assert(after.calls@[index] == calls[index]);
        } else {
            assert(after.calls@[index + 1] == calls[index]);
        }
    }
}

/// The first call of an unknown function is kept as it was made.
pub proof fn law_unknown_functions_are_kept(
    before: UnknownHleLog,
    after: UnknownHleLog,
    regs: Seq<u32>,
    name: Seq<char>,
    import_address: u32,
    return_address: u32,
    result: Result<(), SimulatorError>,
)
    requires
        regs.len() == REGISTER_COUNT,
        strictly_ordered(before.calls@),
        unknown_recorded(before, after, regs, name, import_address, return_address, result),
        return_address >= 8,
        forall|i: int| 0 <= i < before.calls@.len() ==> (#[trigger] before.calls@[i]).name@ != name,
    ensures
        after.calls@.len() == before.calls@.len() + 1,
        exists|i: int|
            {
                let call = #[trigger] after.calls@[i];
                &&& 0 <= i < after.calls@.len()
                &&& call.name@ == name
                &&& call.count == 1
                &&& call.import_address == import_address
                &&& call.first_pc == return_address - 8
                &&& call.first_arguments@[0] == regs[4] && call.first_arguments@[1] == regs[5]
                    && call.first_arguments@[2] == regs[6] && call.first_arguments@[3] == regs[7]
            },
{
    let place = place_of(before.calls@, name, 0);
    crate::unknown_hle::lemma_place(before.calls@, name, 0);
    let call = after.calls@[place];
    assert(call.name@ == name);
    assert(call.count == 1);
}

/// A call of an unknown function stops the machine exactly where that is asked for and
/// the function is not allowed.
pub proof fn law_unknown_functions_stop_the_machine(
    before: UnknownHleLog,
    after: UnknownHleLog,
    regs: Seq<u32>,
    name: Seq<char>,
    import_address: u32,
    return_address: u32,
    result: Result<(), SimulatorError>,
)
    requires
        unknown_recorded(before, after, regs, name, import_address, return_address, result),
    ensures
        result is Err <==> before.policy != UnknownHlePolicy::Report && forall|i: int|
            0 <= i < before.allowlist@.len() ==> #[trigger] before.allowlist@[i]@ != name,
{
}

} // verus!
