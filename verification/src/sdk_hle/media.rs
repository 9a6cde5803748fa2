//! Screen, key and sound functions.

use crate::audio::{newly_opened, written, AudioConfig, AudioWrite, SampleFormat};
use crate::emulator::{Emulator, Video};
use crate::error::SimulatorError;
use crate::isa::reg;
use crate::memory::{
    accessible_prefix, bytes_at, guest_read, FRAMEBUFFER_SIZE, MemoryView, SCREEN_HEIGHT,
    SCREEN_WIDTH, Width,
};
use crate::sdk_hle::call::HandlerResult;
use crate::sdk_hle::files::gave;
use crate::tasks::TaskWait;
use crate::text::text_equal;
use vstd::prelude::*;
use vstd::string::*;

verus! {

/// Most bytes of sound that a call can hand over.
pub const MAX_AUDIO_WRITE_BYTES: u32 = 4_194_304;

/// A description of sound in guest memory, or the address at which it cannot be
/// read.
pub open spec fn wave_format(memory: MemoryView, pointer: u32) -> Result<(u32, u16, u8, u8), u32> {
    let format = pointer.wrapping_add(4);
    let channels = pointer.wrapping_add(6);
    let volume = pointer.wrapping_add(7);
    match guest_read(memory, pointer, Width::Word) {
        None => Err(pointer),
        Some(rate) => match guest_read(memory, format, Width::Half) {
            None => Err(format),
            Some(bits) => match guest_read(memory, channels, Width::Byte) {
                None => Err(channels),
                Some(count) => match guest_read(memory, volume, Width::Byte) {
                    None => Err(volume),
                    Some(level) => Ok((rate, bits as u16, count as u8, level as u8)),
                },
            },
        },
    }
}

/// Whether sound can be played in a format.
pub open spec fn playable(rate: u32, bits: u16, channels: u8) -> bool {
    rate > 0 && 1 <= channels <= 2 && (bits == 8 || bits == 16)
}

/// The failure at an address.
pub open spec fn unmapped(address: u32) -> Result<HandlerResult, SimulatorError> {
    Err(SimulatorError::UnmappedAddress { address })
}

/// What opening the sound output does.
pub open spec fn wave_opened(
    before: Emulator,
    after: Emulator,
    result: Result<HandlerResult, SimulatorError>,
) -> bool {
    match wave_format(before.memory@, reg(before.cpu.regs.file(), 4)) {
        Err(address) => after == before && result == unmapped(address),
        Ok((rate, bits, channels, volume)) => {
            &&& result == Ok::<HandlerResult, SimulatorError>(HandlerResult::Complete)
            &&& after == (Emulator { cpu: after.cpu, audio: after.audio, ..before })
            &&& if playable(rate, bits, channels) {
                &&& gave(before, after, 1)
                &&& newly_opened(
                    before.audio,
                    after.audio,
                    AudioConfig {
                        sample_rate: rate,
                        format: if bits == 8 {
                            SampleFormat::U8
                        } else {
                            SampleFormat::S16Le
                        },
                        channels,
                        volume,
                    },
                )
            } else {
                &&& gave(before, after, 0)
                &&& after.audio == before.audio
            }
        },
    }
}

/// What playing guest samples does: too many are refused, with a full queue the
/// context waits for room, and sound that can no longer be counted ends emulation.
pub open spec fn wave_written(
    before: Emulator,
    after: Emulator,
    result: Result<HandlerResult, SimulatorError>,
) -> bool {
    let regs = before.cpu.regs.file();
    let buffer = reg(regs, 5);
    let size = reg(regs, 6);
    let readable = accessible_prefix(buffer, size as int);
    let data = bytes_at(before.memory@, buffer, size as nat);
    if size > MAX_AUDIO_WRITE_BYTES {
        &&& after == (Emulator { cpu: after.cpu, ..before })
        &&& gave(before, after, 0)
        &&& result == Ok::<HandlerResult, SimulatorError>(HandlerResult::Complete)
    } else if !before.audio.accepts() {
        &&& after == (Emulator { scheduler: after.scheduler, ..before })
        &&& after.scheduler@ == before.scheduler@.with_active_wait(Some(TaskWait::AudioWrite))
        &&& result == Ok::<HandlerResult, SimulatorError>(HandlerResult::Waiting)
    } else if readable < size {
        after == before && result == unmapped(buffer.wrapping_add(readable as u32))
    } else if !before.audio.has_room(data) {
        after == before && result == Err::<HandlerResult, SimulatorError>(
            SimulatorError::SoundOverflow,
        )
    } else {
        &&& after == (Emulator { cpu: after.cpu, audio: after.audio, ..before })
        &&& match result {
            Ok(HandlerResult::Rendering(frames)) => gave(before, after, 1) && written(
                before.audio,
                after.audio,
                data,
                AudioWrite::Render(frames),
            ),
            Ok(HandlerResult::Complete) => {
                ||| gave(before, after, 1) && written(
                    before.audio,
                    after.audio,
                    data,
                    AudioWrite::Silent,
                )
                ||| gave(before, after, 0) && written(
                    before.audio,
                    after.audio,
                    data,
                    AudioWrite::Rejected,
                )
            },
            _ => false,
        }
    }
}

/// Whether a function of this name is handled here.
pub open spec fn is_media_function(name: Seq<char>) -> bool {
    ||| name == "LCD_GetXSize"@
    ||| name == "LCD_GetYSize"@
    ||| name == "lcd_set_frame"@
    ||| name == "kbd_get_key"@
    ||| name == "pcm_ioctl"@
    ||| name == "waveout_open"@
    ||| name == "waveout_write"@
}

/// What each function does.
pub open spec fn media_call(
    name: Seq<char>,
    before: Emulator,
    after: Emulator,
    result: Result<HandlerResult, SimulatorError>,
) -> bool {
    let only_result = after == (Emulator { cpu: after.cpu, ..before });
    let complete = result == Ok::<HandlerResult, SimulatorError>(HandlerResult::Complete);
    if name == "LCD_GetXSize"@ {
        only_result && complete && gave(before, after, SCREEN_WIDTH)
    } else if name == "LCD_GetYSize"@ {
        only_result && complete && gave(before, after, SCREEN_HEIGHT)
    } else if name == "lcd_set_frame"@ {
        &&& complete
        &&& after == (Emulator { video: after.video, framebuffer_submitted: true, ..before })
        &&& after.video == (Video { framebuffer: after.video.framebuffer, ..before.video })
        &&& after.video.framebuffer@ == before.memory@.framebuffer.take(FRAMEBUFFER_SIZE as int)
    } else if name == "kbd_get_key"@ {
        only_result && complete && gave(before, after, before.input.buttons)
    } else if name == "pcm_ioctl"@ {
        only_result && complete && gave(before, after, 0)
    } else if name == "waveout_open"@ {
        wave_opened(before, after, result)
    } else if name == "waveout_write"@ {
        wave_written(before, after, result)
    } else {
        after == before && result == Ok::<HandlerResult, SimulatorError>(HandlerResult::NotHandled)
    }
}

fn open_wave(emu: &mut Emulator) -> (result: Result<HandlerResult, SimulatorError>)
    requires
        old(emu).wf(),
    ensures
        final(emu).wf(),
        final(emu).same_flow(old(emu)),
        wave_opened(*old(emu), *final(emu), result),
{
    let pointer: u32 = emu.argument(4);
    let rate: u32 = match emu.memory.read_u32(pointer) {
        Ok(rate) => rate,
        Err(error) => {
            return Err(error);
        },
    };
    let bits: u16 = match emu.memory.read_u16(pointer.wrapping_add(4)) {
        Ok(bits) => bits,
        Err(error) => {
            return Err(error);
        },
    };
    let channels: u8 = match emu.memory.read_u8(pointer.wrapping_add(6)) {
        Ok(channels) => channels,
        Err(error) => {
            return Err(error);
        },
    };
    let volume: u8 = match emu.memory.read_u8(pointer.wrapping_add(7)) {
        Ok(volume) => volume,
        Err(error) => {
            return Err(error);
        },
    };
    let opened = match AudioConfig::new(rate, bits, channels, volume) {
        Some(config) => emu.audio.open(config),
        None => false,
    };
    emu.give(
        if opened {
            1
        } else {
            0
        },
    );
    Ok(HandlerResult::Complete)
}

fn write_wave(emu: &mut Emulator) -> (result: Result<HandlerResult, SimulatorError>)
    requires
        old(emu).wf(),
    ensures
        final(emu).wf(),
        final(emu).same_flow(old(emu)),
        wave_written(*old(emu), *final(emu), result),
{
    let buffer: u32 = emu.argument(5);
    let size: u32 = emu.argument(6);
    if size > MAX_AUDIO_WRITE_BYTES {
        emu.give(0);
        return Ok(HandlerResult::Complete);
    }
    if !emu.audio.can_write() {
        emu.scheduler.set_active_wait(TaskWait::AudioWrite);
        return Ok(HandlerResult::Waiting);
    }
    let data = match emu.memory.read_bytes(buffer, size as usize) {
        Ok(data) => data,
        Err(error) => {
            return Err(error);
        },
    };
    if !emu.audio.can_take(data.as_slice()) {
        return Err(SimulatorError::SoundOverflow);
    }
    match emu.audio.write(data.as_slice()) {
        AudioWrite::Rejected => {
            emu.give(0);
            Ok(HandlerResult::Complete)
        },
        AudioWrite::Silent => {
            emu.give(1);
            Ok(HandlerResult::Complete)
        },
        AudioWrite::Render(frames) => {
            emu.give(1);
            Ok(HandlerResult::Rendering(frames))
        },
    }
}

/// Carries out one of these functions.
pub fn handle(emu: &mut Emulator, func_name: &str) -> (result: Result<
    HandlerResult,
    SimulatorError,
>)
    requires
        old(emu).wf(),
    ensures
        final(emu).wf(),
        final(emu).same_flow(old(emu)),
        media_call(func_name@, *old(emu), *final(emu), result),
        result matches Ok(HandlerResult::NotHandled) <==> !is_media_function(func_name@),
{
    if text_equal(func_name, "LCD_GetXSize") {
        emu.give(SCREEN_WIDTH);
        Ok(HandlerResult::Complete)
    } else if text_equal(func_name, "LCD_GetYSize") {
        emu.give(SCREEN_HEIGHT);
        Ok(HandlerResult::Complete)
    } else if text_equal(func_name, "lcd_set_frame") {
        emu.sync_framebuffer();
        Ok(HandlerResult::Complete)
    } else if text_equal(func_name, "kbd_get_key") {
        let buttons: u32 = emu.input.buttons;
        emu.give(buttons);
        Ok(HandlerResult::Complete)
    } else if text_equal(func_name, "pcm_ioctl") {
        emu.give(0);
        Ok(HandlerResult::Complete)
    } else if text_equal(func_name, "waveout_open") {
        open_wave(emu)
    } else if text_equal(func_name, "waveout_write") {
        write_wave(emu)
    } else {
        Ok(HandlerResult::NotHandled)
    }
}

} // verus!
