//! Screen, keys, sound and files as the guest calls them.

use crate::audio::{written, AudioWrite, SampleFormat};
use crate::emulator::Emulator;
use crate::error::SimulatorError;
use crate::files::{file_read, file_sought, file_written};
use crate::input::{exchanged, Input};
use crate::isa::REGISTER_COUNT;
use crate::laws::blocks::{law_blocks_are_read, lemma_run, lies_at};
use crate::laws::places::{cell, law_reads_are_little_endian, little_endian, spot, together};
use crate::laws::registers::{put, signed};
use crate::memory::{bytes_at, Width};
use crate::sdk_hle::call::HandlerResult;
use crate::sdk_hle::files::{file_call, HostReply};
use crate::sdk_hle::media::media_call;
use crate::tasks::TaskWait;
use vstd::prelude::*;

verus! {

/// No two functions of screen, keys and sound have the same name.
proof fn lemma_media_names()
    ensures
        "LCD_GetXSize"@.len() == 12,
        "LCD_GetXSize"@[0] == 'L',
        "LCD_GetXSize"@[7] == 'X',
        "LCD_GetYSize"@.len() == 12,
        "LCD_GetYSize"@[0] == 'L',
        "LCD_GetYSize"@[7] == 'Y',
        "lcd_set_frame"@.len() == 13,
        "lcd_set_frame"@[0] == 'l',
        "kbd_get_key"@.len() == 11,
        "pcm_ioctl"@.len() == 9,
        "waveout_open"@.len() == 12,
        "waveout_open"@[0] == 'w',
        "waveout_write"@.len() == 13,
        "waveout_write"@[0] == 'w',
{
    reveal_strlit("LCD_GetXSize");
    reveal_strlit("LCD_GetYSize");
    reveal_strlit("lcd_set_frame");
    reveal_strlit("kbd_get_key");
    reveal_strlit("pcm_ioctl");
    reveal_strlit("waveout_open");
    reveal_strlit("waveout_write");
}

/// No two functions of files have the same name.
proof fn lemma_file_names()
    ensures
        "get_dl_handle"@.len() == 13,
        "get_dl_handle"@[0] == 'g',
        "dl_res_open"@.len() == 11,
        "dl_res_open"@[0] == 'd',
        "dl_res_get_size"@.len() == 15,
        "dl_res_get_size"@[11] == 's',
        "dl_res_get_data"@.len() == 15,
        "dl_res_get_data"@[11] == 'd',
        "dl_res_close"@.len() == 12,
        "dl_res_close"@[0] == 'd',
        "fopen"@.len() == 5,
        "fopen"@[1] == 'o',
        "fsys_fopen"@.len() == 10,
        "fsys_fopen"@[6] == 'o',
        "fsys_fopenW"@.len() == 11,
        "fsys_fopenW"@[0] == 'f',
        "fsys_fopenW"@[6] == 'o',
        "fclose"@.len() == 6,
        "fclose"@[1] == 'c',
        "fsys_fclose"@.len() == 11,
        "fsys_fclose"@[0] == 'f',
        "fsys_fclose"@[6] == 'c',
        "fsys_fcloseW"@.len() == 12,
        "fsys_fcloseW"@[0] == 'f',
        "fread"@.len() == 5,
        "fread"@[1] == 'r',
        "fsys_fread"@.len() == 10,
        "fsys_fread"@[6] == 'r',
        "fseek"@.len() == 5,
        "fseek"@[1] == 's',
        "fsys_fseek"@.len() == 10,
        "fsys_fseek"@[6] == 's',
        "ftell"@.len() == 5,
        "ftell"@[1] == 't',
        "fsys_ftell"@.len() == 10,
        "fsys_ftell"@[6] == 't',
        "feof"@.len() == 4,
        "fsys_feof"@.len() == 9,
        "fwrite"@.len() == 6,
        "fwrite"@[1] == 'w',
        "fsys_fwrite"@.len() == 11,
        "fsys_fwrite"@[0] == 'f',
        "fsys_fwrite"@[6] == 'w',
        "fsys_findfirst"@.len() == 14,
        "fsys_findfirst"@[9] == 'f',
        "fsys_findnext"@.len() == 13,
        "fsys_findnext"@[0] == 'f',
        "fsys_findclose"@.len() == 14,
        "fsys_findclose"@[9] == 'c',
{
    reveal_strlit("get_dl_handle");
    reveal_strlit("dl_res_open");
    reveal_strlit("dl_res_get_size");
    reveal_strlit("dl_res_get_data");
    reveal_strlit("dl_res_close");
    reveal_strlit("fopen");
    reveal_strlit("fsys_fopen");
    reveal_strlit("fsys_fopenW");
    reveal_strlit("fclose");
    reveal_strlit("fsys_fclose");
    reveal_strlit("fsys_fcloseW");
    reveal_strlit("fread");
    reveal_strlit("fsys_fread");
    reveal_strlit("fseek");
    reveal_strlit("fsys_fseek");
    reveal_strlit("ftell");
    reveal_strlit("fsys_ftell");
    reveal_strlit("feof");
    reveal_strlit("fsys_feof");
    reveal_strlit("fwrite");
    reveal_strlit("fsys_fwrite");
    reveal_strlit("fsys_findfirst");
    reveal_strlit("fsys_findnext");
    reveal_strlit("fsys_findclose");
}

/// Whether a call was carried out and gave a value to the guest.
pub open spec fn answers(
    before: Emulator,
    after: Emulator,
    result: Result<HandlerResult, SimulatorError>,
    word: u32,
) -> bool {
    &&& result == Ok::<HandlerResult, SimulatorError>(HandlerResult::Complete)
    &&& put(before.cpu.regs.file(), after.cpu.regs.file(), 2, word)
}

/// The screen has 320 columns and 240 rows. A key query gives the buttons that are held.
pub proof fn law_screen_and_keys(
    before: Emulator,
    after: Emulator,
    result: Result<HandlerResult, SimulatorError>,
)
    requires
        before.cpu.regs.file().len() == REGISTER_COUNT,
    ensures
        media_call("LCD_GetXSize"@, before, after, result) ==> answers(before, after, result, 320),
        media_call("LCD_GetYSize"@, before, after, result) ==> answers(before, after, result, 240),
        media_call("kbd_get_key"@, before, after, result) ==> answers(
            before,
            after,
            result,
            before.input.buttons,
        ),
        media_call("pcm_ioctl"@, before, after, result) ==> answers(before, after, result, 0),
{
    lemma_media_names();
}

/// A picture that is submitted is what the picture's memory holds, two bytes for each of
/// 320 times 240 points, and ends the frame.
pub proof fn law_pictures(
    before: Emulator,
    after: Emulator,
    result: Result<HandlerResult, SimulatorError>,
)
    requires
        before.memory@.sized(),
        media_call("lcd_set_frame"@, before, after, result),
    ensures
        after.framebuffer_submitted,
        after.video.framebuffer@.len() == 2 * 320 * 240,
        forall|i: int|
            0 <= i < 2 * 320 * 240 ==> #[trigger] after.video.framebuffer@[i] == cell(
                before.memory@,
                (true, i),
            ),
        after.memory == before.memory,
        after.cpu == before.cpu,
{
    lemma_media_names();
}

proof fn lemma_exchanged(buttons: u32)
    by (bit_vector)
    ensures
        exchanged(buttons) & 0x8000_0000 != 0 <==> buttons & 0x20_0000 != 0,
        exchanged(buttons) & 0x20_0000 != 0 <==> buttons & 0x8000_0000 != 0,
        exchanged(buttons) & 0x7fdf_ffff == buttons & 0x7fdf_ffff,
{
}

/// With A and B exchanged, the guest sees A where B is held and B where A is, and every
/// other button as it is held; else it sees all of them so.
pub proof fn law_buttons_are_exchanged(input: Input, buttons: u32)
    ensures
        ({
            let seen = input.holding(buttons).buttons;
            &&& !input.swap_ab ==> seen == buttons
            &&& input.swap_ab ==> {
                &&& seen & 0x8000_0000 != 0 <==> buttons & 0x20_0000 != 0
                &&& seen & 0x20_0000 != 0 <==> buttons & 0x8000_0000 != 0
                &&& seen & 0x7fdf_ffff == buttons & 0x7fdf_ffff
            }
        }),
{
    lemma_exchanged(buttons);
}

/// Sound is opened with what lies at a pointer: the rate in four bytes, the size of a
/// sample in bits in two, the number of channels in one and the volume in one. Sound in
/// samples of eight or sixteen bits on one or two channels is played, and no other.
pub proof fn law_sound_is_opened(
    before: Emulator,
    after: Emulator,
    result: Result<HandlerResult, SimulatorError>,
)
    requires
        before.cpu.regs.file().len() == REGISTER_COUNT,
        before.memory@.sized(),
        together(before.cpu.regs.file()[4] as int, 8),
        media_call("waveout_open"@, before, after, result),
    ensures
        ({
            let memory = before.memory@;
            let (picture, first) = spot(before.cpu.regs.file()[4] as int)->0;
            let rate = little_endian(memory, (picture, first), 4);
            let bits = little_endian(memory, (picture, first + 4), 2);
            let channels = cell(memory, (picture, first + 6));
            let volume = cell(memory, (picture, first + 7));
            if rate > 0 && (bits == 8 || bits == 16) && (channels == 1 || channels == 2) {
                &&& answers(before, after, result, 1)
                &&& after.audio.config is Some
                &&& after.audio.config->0.sample_rate == rate
                &&& after.audio.config->0.format == if bits == 8 {
                    SampleFormat::U8
                } else {
                    SampleFormat::S16Le
                }
                &&& after.audio.config->0.channels == channels
                &&& after.audio.volume == volume
                &&& after.audio.pending_samples@.len() == 0
            } else {
                &&& answers(before, after, result, 0)
                &&& after.audio == before.audio
            }
        }),
{
    lemma_media_names();
    let memory = before.memory@;
    let pointer = before.cpu.regs.file()[4];
    reveal_with_fuel(little_endian, 5);
    law_reads_are_little_endian(memory, pointer, Width::Word);
    law_reads_are_little_endian(memory, pointer.wrapping_add(4), Width::Half);
    law_reads_are_little_endian(memory, pointer.wrapping_add(6), Width::Byte);
    law_reads_are_little_endian(memory, pointer.wrapping_add(7), Width::Byte);
}

/// More than four times 1048576 bytes of sound are refused at once, and a full queue makes
/// the guest wait for room.
pub proof fn law_sound_that_has_to_wait(
    before: Emulator,
    after: Emulator,
    result: Result<HandlerResult, SimulatorError>,
)
    requires
        before.cpu.regs.file().len() == REGISTER_COUNT,
        before.scheduler@.wf(),
        media_call("waveout_write"@, before, after, result),
    ensures
        before.cpu.regs.file()[6] > 4 * 1048576 ==> answers(before, after, result, 0)
            && after.audio == before.audio,
        before.cpu.regs.file()[6] <= 4 * 1048576 && before.audio.config is Some
            && !before.audio.muted && before.audio.volume > 0
            && before.audio.pending_samples@.len() >= 22050 ==> {
            &&& result == Ok::<HandlerResult, SimulatorError>(HandlerResult::Waiting)
            &&& after.audio == before.audio
            &&& after.cpu == before.cpu
            &&& match before.scheduler@.active_task {
                Some(index) => after.scheduler@.tasks[index as int].wait == Some(
                    TaskWait::AudioWrite,
                ),
                None => after.scheduler@.main_wait == Some(TaskWait::AudioWrite),
            }
        },
{
    lemma_media_names();
}

/// Sound is handed over as the bytes that lie at the second argument, as many as the third
/// says. The guest is told one where they were taken, heard or not, and zero where not.
pub proof fn law_sound_is_handed_over(
    before: Emulator,
    after: Emulator,
    result: Result<HandlerResult, SimulatorError>,
)
    requires
        before.cpu.regs.file().len() == REGISTER_COUNT,
        before.memory@.sized(),
        0 < before.cpu.regs.file()[6] <= 4 * 1048576,
        together(before.cpu.regs.file()[5] as int, before.cpu.regs.file()[6] as int),
        before.audio.accepts(),
        before.audio.config matches Some(config) ==> config.valid(),
        media_call("waveout_write"@, before, after, result),
    ensures
        result is Err ==> result == Err::<HandlerResult, SimulatorError>(
            SimulatorError::SoundOverflow,
        ) && after == before,
        result is Ok ==> exists|data: Seq<u8>, outcome: AudioWrite|
            {
                &&& #[trigger] written(before.audio, after.audio, data, outcome)
                &&& data.len() == before.cpu.regs.file()[6]
                &&& lies_at(before.memory@, spot(before.cpu.regs.file()[5] as int)->0, data)
                &&& put(
                    before.cpu.regs.file(),
                    after.cpu.regs.file(),
                    2,
                    if outcome is Rejected {
                        0
                    } else {
                        1
                    },
                )
                &&& outcome is Render <==> result->Ok_0 is Rendering
                &&& outcome is Render ==> outcome->Render_0 == result->Ok_0->Rendering_0
            },
{
    lemma_media_names();
    let regs = before.cpu.regs.file();
    let data = bytes_at(before.memory@, regs[5], regs[6] as nat);
    lemma_run(regs[5], regs[6] as int);
    law_blocks_are_read(before.memory@, regs[5], regs[6] as nat);
    if let Ok(handled) = result {
        if let HandlerResult::Rendering(frames) = handled {
            assert(written(before.audio, after.audio, data, AudioWrite::Render(frames)));
        } else if written(before.audio, after.audio, data, AudioWrite::Silent) {
            assert(written(before.audio, after.audio, data, AudioWrite::Silent));
        } else {
            assert(written(before.audio, after.audio, data, AudioWrite::Rejected));
        }
    }
}

/// The functions that tell about an open file tell its size, its position and whether
/// that is at the end, and change nothing.
pub proof fn law_files_are_described(
    before: Emulator,
    after: Emulator,
    reply: HostReply,
    result: Result<HandlerResult, SimulatorError>,
)
    requires
        before.cpu.regs.file().len() == REGISTER_COUNT,
        before.files.files@.contains_key(before.cpu.regs.file()[4]),
        before.files.files@[before.cpu.regs.file()[4]].data@.len() <= u32::MAX,
        before.files.files@[before.cpu.regs.file()[4]].position <= u32::MAX,
    ensures
        ({
            let file = before.files.files@[before.cpu.regs.file()[4]];
            &&& file_call("dl_res_get_size"@, before, after, reply, result) ==> answers(
                before,
                after,
                result,
                file.data@.len() as u32,
            )
            &&& file_call("ftell"@, before, after, reply, result) || file_call(
                "fsys_ftell"@,
                before,
                after,
                reply,
                result,
            ) ==> answers(before, after, result, file.position as u32) && after.files
                == before.files
            &&& file_call("feof"@, before, after, reply, result) || file_call(
                "fsys_feof"@,
                before,
                after,
                reply,
                result,
            ) ==> answers(
                before,
                after,
                result,
                if file.position >= file.data@.len() {
                    1
                } else {
                    0
                },
            ) && after.files == before.files
        }),
{
    lemma_file_names();
}

/// A file that is closed is no longer open, and all others are. The guest is told zero, or
/// all ones where the file had changed and could not be saved.
pub proof fn law_files_are_closed(
    before: Emulator,
    after: Emulator,
    reply: HostReply,
    result: Result<HandlerResult, SimulatorError>,
)
    requires
        before.cpu.regs.file().len() == REGISTER_COUNT,
        file_call("fclose"@, before, after, reply, result) || file_call(
            "fsys_fclose"@,
            before,
            after,
            reply,
            result,
        ) || file_call("fsys_fcloseW"@, before, after, reply, result),
    ensures
        ({
            let handle = before.cpu.regs.file()[4];
            let file = before.files.files@[handle];
            let changed = before.files.files@.contains_key(handle) && file.dirty
                && file.save_path is Some;
            &&& only_closed(before, after, handle)
            &&& changed && reply != HostReply::Saved(true) ==> answers(
                before,
                after,
                result,
                0xffff_ffff,
            )
            &&& changed && reply == HostReply::Saved(true) ==> answers(before, after, result, 0)
            &&& !changed ==> answers(before, after, result, 0)
        }),
{
    lemma_file_names();
}

/// Whether a file was closed and nothing happened to the other ones.
pub open spec fn only_closed(before: Emulator, after: Emulator, handle: u32) -> bool {
    &&& !after.files.files@.contains_key(handle)
    &&& forall|other: u32|
        #![trigger after.files.files@.contains_key(other)]
        #![trigger after.files.files@[other]]
        other != handle ==> (after.files.files@.contains_key(other)
            <==> before.files.files@.contains_key(other)) && after.files.files@[other]
            == before.files.files@[other]
}

/// A resource that is closed is no longer open, and all others are.
pub proof fn law_resources_are_closed(
    before: Emulator,
    after: Emulator,
    reply: HostReply,
    result: Result<HandlerResult, SimulatorError>,
)
    requires
        before.cpu.regs.file().len() == REGISTER_COUNT,
        file_call("dl_res_close"@, before, after, reply, result),
    ensures
        only_closed(before, after, before.cpu.regs.file()[4]),
        answers(before, after, result, 0),
{
    lemma_file_names();
}

/// A seek takes its distance as a number with a sign from the second argument, and where
/// it starts from the third.
pub proof fn law_seeks(
    before: Emulator,
    after: Emulator,
    reply: HostReply,
    result: Result<HandlerResult, SimulatorError>,
)
    requires
        before.cpu.regs.file().len() == REGISTER_COUNT,
        file_call("fseek"@, before, after, reply, result) || file_call(
            "fsys_fseek"@,
            before,
            after,
            reply,
            result,
        ),
    ensures
        ({
            let regs = before.cpu.regs.file();
            exists|offset: i32|
                (offset - regs[5]) % 0x1_0000_0000 == 0 && #[trigger] file_sought(
                    before.files,
                    after.files,
                    regs[4],
                    offset,
                    regs[6],
                    after.cpu.regs.file()[2],
                )
        }),
{
    lemma_file_names();
    let regs = before.cpu.regs.file();
    let offset = crate::sdk_hle::files::signed(regs[5]);
    assert(file_sought(
        before.files,
        after.files,
        regs[4],
        offset,
        regs[6],
        after.cpu.regs.file()[2],
    ));
}

/// Reads and writes take where the bytes go or come from, the size of an item, the number
/// of items and the file, in this order.
pub proof fn law_reads_and_writes(
    before: Emulator,
    after: Emulator,
    reply: HostReply,
    result: Result<HandlerResult, SimulatorError>,
    items: u32,
)
    requires
        before.cpu.regs.file().len() == REGISTER_COUNT,
        answers(before, after, result, items),
    ensures
        ({
            let regs = before.cpu.regs.file();
            &&& file_call("fread"@, before, after, reply, result) || file_call(
                "fsys_fread"@,
                before,
                after,
                reply,
                result,
            ) ==> file_read(
                before.files,
                after.files,
                before.memory,
                after.memory,
                regs[4],
                regs[5],
                regs[6],
                regs[7],
                Ok(items),
            )
            &&& file_call("fwrite"@, before, after, reply, result) || file_call(
                "fsys_fwrite"@,
                before,
                after,
                reply,
                result,
            ) ==> file_written(
                before.files,
                after.files,
                before.memory,
                regs[4],
                regs[5],
                regs[6],
                regs[7],
                Ok(items),
            )
        }),
{
    lemma_file_names();
}

/// A search that is ended is forgotten, and all others go on.
pub proof fn law_searches_are_ended(
    before: Emulator,
    after: Emulator,
    reply: HostReply,
    result: Result<HandlerResult, SimulatorError>,
)
    requires
        before.cpu.regs.file().len() == REGISTER_COUNT,
        file_call("fsys_findclose"@, before, after, reply, result),
    ensures
        answers(before, after, result, 0),
        !after.searches.searches@.contains_key(before.cpu.regs.file()[4]),
        forall|other: u32|
            #![trigger after.searches.searches@.contains_key(other)]
            other != before.cpu.regs.file()[4] ==> (after.searches.searches@.contains_key(other)
                <==> before.searches.searches@.contains_key(other))
                && after.searches.searches@[other] == before.searches.searches@[other],
{
    lemma_file_names();
}

} // verus!
