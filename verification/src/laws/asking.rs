//! What the host is asked for, and what settings do.

use crate::app_image::AppImage;
use crate::diagnostics::{is_new_session, DiagnosticSession};
use crate::emulator::Emulator;
use crate::error::SimulatorError;
use crate::frontend::{describes_buttons, options_applied, AppliedOptions, RetroInputDescriptor};
use crate::game_enhancements::{first_obstacle, full_patches, known_patches, patched, trial_patches};
use crate::isa::REGISTER_COUNT;
use crate::laws::registers::put;
use crate::options::CoreOptions;
use crate::outside::{crc32_of, utf16_lossy};
use crate::paths::{host_file_path, joined, normalized_pattern, save_path, search_directory};
use crate::sdk_hle::call::HandlerResult;
use crate::sdk_hle::dispatch::called;
use crate::sdk_hle::files::{
    file_call, is_file_function, name_arguments, request_is, resource_name, HostReply, HostRequest,
};
use crate::sdk_hle::media::{is_media_function, media_call};
use crate::sdk_hle::system::{is_system_function, system_effect};
use crate::sdk_hle::tasks::{is_task_function, task_effect};
use crate::text::{c_string, w_words};
use crate::unknown_hle::unknown_recorded;
use vstd::prelude::*;

verus! {

/// No two functions of files have the same name.
proof fn lemma_request_names()
    ensures
        "get_dl_handle"@.len() == 13,
        "get_dl_handle"@[0] == 'g',
        "dl_res_open"@.len() == 11,
        "dl_res_open"@[0] == 'd',
        "dl_res_get_size"@.len() == 15,
        "dl_res_get_size"@[11] == 's',
        "dl_res_get_data"@.len() == 15,
        "dl_res_get_data"@[11] == 'd',
        "dl_res_close"@.len() == 12,
        "dl_res_close"@[0] == 'd',
        "fopen"@.len() == 5,
        "fopen"@[1] == 'o',
        "fsys_fopen"@.len() == 10,
        "fsys_fopen"@[6] == 'o',
        "fsys_fopenW"@.len() == 11,
        "fsys_fopenW"@[0] == 'f',
        "fsys_fopenW"@[6] == 'o',
        "fclose"@.len() == 6,
        "fclose"@[1] == 'c',
        "fsys_fclose"@.len() == 11,
        "fsys_fclose"@[0] == 'f',
        "fsys_fclose"@[6] == 'c',
        "fsys_fcloseW"@.len() == 12,
        "fsys_fcloseW"@[0] == 'f',
        "fread"@.len() == 5,
        "fread"@[1] == 'r',
        "fsys_fread"@.len() == 10,
        "fsys_fread"@[6] == 'r',
        "fseek"@.len() == 5,
        "fseek"@[1] == 's',
        "fsys_fseek"@.len() == 10,
        "fsys_fseek"@[6] == 's',
        "ftell"@.len() == 5,
        "ftell"@[1] == 't',
        "fsys_ftell"@.len() == 10,
        "fsys_ftell"@[6] == 't',
        "feof"@.len() == 4,
        "fsys_feof"@.len() == 9,
        "fwrite"@.len() == 6,
        "fwrite"@[1] == 'w',
        "fsys_fwrite"@.len() == 11,
        "fsys_fwrite"@[0] == 'f',
        "fsys_fwrite"@[6] == 'w',
        "fsys_findfirst"@.len() == 14,
        "fsys_findfirst"@[9] == 'f',
        "fsys_findnext"@.len() == 13,
        "fsys_findnext"@[0] == 'f',
        "fsys_findclose"@.len() == 14,
        "fsys_findclose"@[9] == 'c',
{
    reveal_strlit("get_dl_handle");
    reveal_strlit("dl_res_open");
    reveal_strlit("dl_res_get_size");
    reveal_strlit("dl_res_get_data");
    reveal_strlit("dl_res_close");
    reveal_strlit("fopen");
    reveal_strlit("fsys_fopen");
    reveal_strlit("fsys_fopenW");
    reveal_strlit("fclose");
    reveal_strlit("fsys_fclose");
    reveal_strlit("fsys_fcloseW");
    reveal_strlit("fread");
    reveal_strlit("fsys_fread");
    reveal_strlit("fseek");
    reveal_strlit("fsys_fseek");
    reveal_strlit("ftell");
    reveal_strlit("fsys_ftell");
    reveal_strlit("feof");
    reveal_strlit("fsys_feof");
    reveal_strlit("fwrite");
    reveal_strlit("fsys_fwrite");
    reveal_strlit("fsys_findfirst");
    reveal_strlit("fsys_findnext");
    reveal_strlit("fsys_findclose");
}

/// Opening a file asks for the one whose name lies at the first argument, in the mode that
/// lies at the second: where it is saved below the save directory, where its name can be,
/// and where it lies beside the application.
pub proof fn law_files_that_are_asked_for(request: HostRequest, emu: Emulator, name: Seq<char>)
    requires
        emu.cpu.regs.file().len() == REGISTER_COUNT,
        name == "fopen"@ || name == "fsys_fopen"@,
        request_is(request, name, emu),
    ensures
        ({
            let file = c_string(emu.memory@, emu.cpu.regs.file()[4]);
            &&& request is Open
            &&& request->Open_0.name@ == file
            &&& request->Open_0.mode@ == c_string(emu.memory@, emu.cpu.regs.file()[5])
            &&& request->Open_0.host_path@ == host_file_path(emu.app_path@, file)
            &&& request->Open_0.save_path is Some <==> emu.save_directory is Some && save_path(
                file,
            ) is Some
            &&& request->Open_0.save_path is Some ==> request->Open_0.save_path->0@ == joined(
                emu.save_directory->0@,
                save_path(file)->0,
            )
        }),
{
    lemma_request_names();
}

/// Opening a file by a wide name asks for it by the text of that name.
pub proof fn law_wide_names_that_are_asked_for(request: HostRequest, emu: Emulator)
    requires
        emu.cpu.regs.file().len() == REGISTER_COUNT,
        request_is(request, "fsys_fopenW"@, emu),
        request is Open,
    ensures
        request->Open_0.name@ == utf16_lossy(w_words(emu.memory@, emu.cpu.regs.file()[4])),
        request->Open_0.mode@ == utf16_lossy(w_words(emu.memory@, emu.cpu.regs.file()[5])),
{
    lemma_request_names();
}

/// Closing a file asks to save it where it has changed and is saved at all. Opening a
/// resource asks for the one that is named, and beginning a search for the directory of
/// its pattern. Other functions ask for nothing.
pub proof fn law_other_requests(request: HostRequest, emu: Emulator)
    requires
        emu.cpu.regs.file().len() == REGISTER_COUNT,
    ensures
        ({
            let regs = emu.cpu.regs.file();
            let handle = regs[4];
            let file = emu.files.files@[handle];
            let unsaved = emu.files.files@.contains_key(handle) && file.dirty
                && file.save_path is Some;
            let resource = resource_name(emu.memory@, name_arguments(regs), 0);
            let pattern = normalized_pattern(c_string(emu.memory@, regs[4]));
            &&& request_is(request, "fclose"@, emu) || request_is(request, "fsys_fclose"@, emu)
                ==> if unsaved {
                request == HostRequest::Save(handle)
            } else {
                request is Nothing
            }
            &&& request_is(request, "dl_res_open"@, emu) ==> match resource {
                Some(name) => request is Resource && request->Resource_0@ == name,
                None => request is Nothing,
            }
            &&& request_is(request, "fsys_findfirst"@, emu) && regs[6] != 0 ==> match pattern {
                Some(normalized) => request is List && request->List_0@ == search_directory(
                    normalized,
                ),
                None => request is Nothing,
            }
            &&& request_is(request, "fread"@, emu) || request_is(request, "fwrite"@, emu)
                || request_is(request, "fseek"@, emu) ==> request is Nothing
        }),
{
    lemma_request_names();
}

/// Every function of the system, of tasks, files and media is carried out as such.
pub proof fn law_functions_are_known()
    ensures
        is_system_function("__icache_invalidate_all"@),
        is_system_function("malloc"@),
        is_system_function("free"@),
        is_system_function("realloc"@),
        is_system_function("memset"@),
        is_system_function("memcpy"@),
        is_system_function("strlen"@),
        is_system_function("__to_locale_ansi"@),
        is_system_function("cmGetSysModel"@),
        is_system_function("get_current_language"@),
        is_system_function("U8TOU16"@),
        is_system_function("U8TOX16"@),
        is_system_function("U8TOU32"@),
        is_system_function("U8TOX32"@),
        is_system_function("OSTimeGet"@),
        is_system_function("GetTickCount"@),
        is_system_function("delay_ms"@),
        is_system_function("mdelay"@),
        is_system_function("StartSwTimer"@),
        is_system_function("OSTimeDly"@),
        is_system_function("udelay"@),
        is_system_function("vxGoHome"@),
        is_system_function("abort"@),
        is_system_function("TaskMediaFunStop"@),
        is_system_function("sprintf"@),
        is_system_function("printf"@),
        is_system_function("fprintf"@),
        is_system_function("__dcache_writeback_all"@),
        is_task_function("OSTaskCreate"@),
        is_task_function("OSTaskDel"@),
        is_task_function("OSSemCreate"@),
        is_task_function("OSSemPend"@),
        is_task_function("OSSemPost"@),
        is_task_function("OSSemDel"@),
        is_file_function("get_dl_handle"@),
        is_file_function("dl_res_open"@),
        is_file_function("dl_res_get_size"@),
        is_file_function("dl_res_get_data"@),
        is_file_function("dl_res_close"@),
        is_file_function("fopen"@),
        is_file_function("fsys_fopen"@),
        is_file_function("fsys_fopenW"@),
        is_file_function("fclose"@),
        is_file_function("fsys_fclose"@),
        is_file_function("fsys_fcloseW"@),
        is_file_function("fread"@),
        is_file_function("fsys_fread"@),
        is_file_function("fseek"@),
        is_file_function("fsys_fseek"@),
        is_file_function("ftell"@),
        is_file_function("fsys_ftell"@),
        is_file_function("feof"@),
        is_file_function("fsys_feof"@),
        is_file_function("fwrite"@),
        is_file_function("fsys_fwrite"@),
        is_file_function("fsys_findfirst"@),
        is_file_function("fsys_findnext"@),
        is_file_function("fsys_findclose"@),
        is_media_function("LCD_GetXSize"@),
        is_media_function("LCD_GetYSize"@),
        is_media_function("lcd_set_frame"@),
        is_media_function("kbd_get_key"@),
        is_media_function("pcm_ioctl"@),
        is_media_function("waveout_open"@),
        is_media_function("waveout_write"@),
{
}

/// A function is carried out by what its name belongs to; one that is not known is
/// recorded, gives zero and changes nothing else.
pub proof fn law_functions_are_carried_out(
    before: Emulator,
    after: Emulator,
    address: u32,
    name: Seq<char>,
    reply: HostReply,
    result: Result<HandlerResult, SimulatorError>,
)
    requires
        before.cpu.regs.file().len() == REGISTER_COUNT,
        called(before, after, address, name, reply, result),
    ensures
        is_system_function(name) ==> system_effect(name, before, after, result),
        !is_system_function(name) && is_task_function(name) ==> task_effect(
            name,
            before,
            after,
            result,
        ),
        !is_system_function(name) && !is_task_function(name) && is_file_function(name) ==> {
            &&& file_call(name, before, after, reply, result)
            &&& after.audio == before.audio && after.scheduler == before.scheduler
            &&& after.video == before.video && after.input == before.input
        },
        !is_system_function(name) && !is_task_function(name) && !is_file_function(name)
            && is_media_function(name) ==> media_call(name, before, after, result),
        !is_system_function(name) && !is_task_function(name) && !is_file_function(name)
            && !is_media_function(name) ==> {
            &&& result is Ok ==> put(before.cpu.regs.file(), after.cpu.regs.file(), 2, 0)
            &&& result is Err ==> after.cpu.regs.file() == before.cpu.regs.file()
            &&& after.memory == before.memory && after.files == before.files
            &&& after.scheduler == before.scheduler && after.audio == before.audio
            &&& unknown_recorded(
                before.unknown_hle,
                after.unknown_hle,
                before.cpu.regs.file(),
                name,
                address,
                before.cpu.regs.file()[31],
                match result {
                    Ok(_) => Ok(()),
                    Err(error) => Err(error),
                },
            )
        },
{
}

/// Options take effect where they belong: the volume is a percentage, and every other one
/// is set as it was chosen. Only patches change memory.
pub proof fn law_options_take_effect(
    before: Emulator,
    after: Emulator,
    options: CoreOptions,
    applied: AppliedOptions,
)
    requires
        options_applied(before, after, options, applied),
    ensures
        options.volume <= 100 ==> after.audio.master_volume == options.volume,
        options.volume > 100 ==> after.audio.master_volume == 100,
        after.input.repeat_delay == options.repeat_delay,
        after.input.repeat_period == options.repeat_period,
        after.input.swap_ab == options.swap_ab,
        after.input.buttons == before.input.buttons,
        after.cpu.unknown_instruction_policy == options.unknown_instruction_policy,
        after.jit.enabled == options.jit_enabled,
        after.jit.diagnostics_enabled == options.diagnostics_enabled,
        ({
            let patches = known_patches(before.app);
            let fits = patches is Some && first_obstacle(before.memory@, patches->0, 0) is None;
            &&& !fits ==> after.memory@ == before.memory@
            &&& fits ==> after.memory@ == patched(
                before.memory@,
                patches->0,
                options.frame_rate_enhancement_enabled,
            )
            &&& applied.enhancement_error is Some <==> patches is Some && !fits
        }),
        after.cpu.regs == before.cpu.regs,
        after.scheduler == before.scheduler,
        after.files == before.files,
{
}

/// An application is known by the size and the checksum of its file and by the addresses
/// at which it lies and starts.
pub proof fn law_known_releases(app: AppImage)
    ensures
        ({
            let size = app.data@.len();
            let checksum = crc32_of(app.data@);
            let trial = size == 12_843_417 && checksum == 0xfa67_bd03 && app.load_base
                == 0x80a0_0000 && app.entry_point == 0x80a0_00a0;
            let full = size == 15_443_327 && checksum == 0xa2f6_f7bc && app.load_base
                == 0x80a0_0000 && app.entry_point == 0x80aa_07f0;
            &&& trial ==> known_patches(Some(app)) == Some(trial_patches())
            &&& full ==> known_patches(Some(app)) == Some(full_patches())
            &&& !trial && !full ==> known_patches(Some(app)) is None
        }),
        known_patches(None) is None,
{
    assert(app.data@.len() == app.data.len());
}

/// A new session collects nothing yet, and its report is `dingooemu-diagnostic.txt` in the
/// save directory, where there is one.
pub proof fn law_new_sessions(
    session: DiagnosticSession,
    directory: Option<Seq<char>>,
    content: Seq<char>,
    rate: u32,
)
    requires
        is_new_session(session, directory, content, rate),
    ensures
        !session.enabled,
        session.audio_output_sample_rate_hz == rate,
        session.path is Some <==> directory is Some,
        directory matches Some(directory) ==> session.path->0@ == joined(
            directory,
            "dingooemu-diagnostic.txt"@,
        ),
        session.total.frames == 0,
        session.recent.frames == 0,
        session.audio_frames_requested == 0,
        session.audio_buffer_occupancy_min is None,
{
}

/// Every button of the pad is shown with the name that the console gives it.
pub proof fn law_buttons_are_named(descriptors: Seq<RetroInputDescriptor>, i: int)
    requires
        describes_buttons(descriptors),
        0 <= i < 12,
    ensures
        ({
            let shown = descriptors[i];
            let name = shown.description->0@;
            &&& shown.port == 0 && shown.index == 0 && shown.device == 1
            &&& shown.description is Some
            &&& shown.id == 0 ==> name == "B"@
            &&& shown.id == 1 ==> name == "Y"@
            &&& shown.id == 2 ==> name == "Select"@
            &&& shown.id == 3 ==> name == "Start"@
            &&& shown.id == 4 ==> name == "D-Pad Up"@
            &&& shown.id == 5 ==> name == "D-Pad Down"@
            &&& shown.id == 6 ==> name == "D-Pad Left"@
            &&& shown.id == 7 ==> name == "D-Pad Right"@
            &&& shown.id == 8 ==> name == "A"@
            &&& shown.id == 9 ==> name == "X"@
            &&& shown.id == 10 ==> name == "L"@
            &&& shown.id == 11 ==> name == "R"@
            &&& shown.id < 12
        }),
{
    let shown = descriptors[i];
}

} // verus!
