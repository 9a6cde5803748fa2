//! What a frontend asks of the machine, and is asked.
//!
//! The frontend is spoken to in numbered commands, and answers whether it accepts
//! them. The numbers are those of the libretro interface.

use crate::cpu::Cpu;
use crate::diagnostics::{
    is_enabled, set_audio_buffer_status_callback_status, set_enabled, switched,
    DiagnosticSession, Diagnostics, ReportRequest,
};
use crate::directories::{parent_directory, parent_of};
use crate::emulator::Emulator;
use crate::error::SimulatorError;
use crate::game_enhancements::{first_obstacle, known_patches, patched};
use crate::input::{
    BUTTON_A, BUTTON_B, BUTTON_DOWN, BUTTON_L, BUTTON_LEFT, BUTTON_R, BUTTON_RIGHT,
    BUTTON_SELECT, BUTTON_START, BUTTON_UP, BUTTON_X, BUTTON_Y,
};
use crate::memory::VM_LCD_FB_ADDRESS;
use crate::options::{
    core_option_variables, offered_options, variable_texts, CoreOptions, RetroVariable,
};
use crate::save_state::SERIALIZED_SIZE;
use vstd::prelude::*;
use vstd::string::*;

verus! {

pub const RETRO_DEVICE_NONE: u32 = 0;

pub const RETRO_DEVICE_JOYPAD: u32 = 1;

pub const RETRO_DEVICE_ID_JOYPAD_B: u32 = 0;

pub const RETRO_DEVICE_ID_JOYPAD_Y: u32 = 1;

pub const RETRO_DEVICE_ID_JOYPAD_SELECT: u32 = 2;

pub const RETRO_DEVICE_ID_JOYPAD_START: u32 = 3;

pub const RETRO_DEVICE_ID_JOYPAD_UP: u32 = 4;

pub const RETRO_DEVICE_ID_JOYPAD_DOWN: u32 = 5;

pub const RETRO_DEVICE_ID_JOYPAD_LEFT: u32 = 6;

pub const RETRO_DEVICE_ID_JOYPAD_RIGHT: u32 = 7;

pub const RETRO_DEVICE_ID_JOYPAD_A: u32 = 8;

pub const RETRO_DEVICE_ID_JOYPAD_X: u32 = 9;

pub const RETRO_DEVICE_ID_JOYPAD_L: u32 = 10;

pub const RETRO_DEVICE_ID_JOYPAD_R: u32 = 11;

pub const RETRO_MEMORY_MASK: u32 = 0xff;

pub const RETRO_MEMORY_SYSTEM_RAM: u32 = 2;

pub const RETRO_MEMORY_VIDEO_RAM: u32 = 3;

pub const RETRO_MEMDESC_SYSTEM_RAM: u64 = 4;

pub const RETRO_MEMDESC_VIDEO_RAM: u64 = 16;

pub const RETRO_PIXEL_FORMAT_RGB565: u32 = 2;

pub const RETRO_ENVIRONMENT_SHUTDOWN: u32 = 7;

pub const RETRO_ENVIRONMENT_SET_PERFORMANCE_LEVEL: u32 = 8;

pub const RETRO_ENVIRONMENT_SET_PIXEL_FORMAT: u32 = 10;

pub const RETRO_ENVIRONMENT_SET_INPUT_DESCRIPTORS: u32 = 11;

pub const RETRO_ENVIRONMENT_GET_VARIABLE: u32 = 15;

pub const RETRO_ENVIRONMENT_SET_VARIABLES: u32 = 16;

pub const RETRO_ENVIRONMENT_GET_VARIABLE_UPDATE: u32 = 17;

pub const RETRO_ENVIRONMENT_GET_SAVE_DIRECTORY: u32 = 31;

pub const RETRO_ENVIRONMENT_SET_MEMORY_MAPS: u32 = 0x1_0024;

pub const RETRO_ENVIRONMENT_SET_AUDIO_BUFFER_STATUS_CALLBACK: u32 = 62;

/// How demanding the machine is.
pub const PERFORMANCE_LEVEL: u32 = 4;

// Buttons.

/// Buttons of the frontend's pad, with those of the console.
pub open spec fn button_map() -> Seq<(u32, u32)> {
    seq![
        (RETRO_DEVICE_ID_JOYPAD_UP, BUTTON_UP),
        (RETRO_DEVICE_ID_JOYPAD_DOWN, BUTTON_DOWN),
        (RETRO_DEVICE_ID_JOYPAD_LEFT, BUTTON_LEFT),
        (RETRO_DEVICE_ID_JOYPAD_RIGHT, BUTTON_RIGHT),
        (RETRO_DEVICE_ID_JOYPAD_A, BUTTON_A),
        (RETRO_DEVICE_ID_JOYPAD_B, BUTTON_B),
        (RETRO_DEVICE_ID_JOYPAD_X, BUTTON_X),
        (RETRO_DEVICE_ID_JOYPAD_Y, BUTTON_Y),
        (RETRO_DEVICE_ID_JOYPAD_START, BUTTON_START),
        (RETRO_DEVICE_ID_JOYPAD_SELECT, BUTTON_SELECT),
        (RETRO_DEVICE_ID_JOYPAD_L, BUTTON_L),
        (RETRO_DEVICE_ID_JOYPAD_R, BUTTON_R),
    ]
}

/// The console's buttons for the first answers of the pad.
pub open spec fn buttons_for(answers: Seq<bool>, count: int) -> u32
    decreases count,
{
    if count <= 0 {
        0
    } else {
        let earlier = buttons_for(answers, count - 1);
        if answers[count - 1] {
            earlier | button_map()[count - 1].1
        } else {
            earlier
        }
    }
}

/// Whether these are answers of the pad, one for each button.
pub open spec fn answered<F: Fn(u32) -> bool>(pressed: F, answers: Seq<bool>) -> bool {
    &&& answers.len() == button_map().len()
    &&& forall|i: int|
        #![trigger answers[i]]
        0 <= i < answers.len() ==> pressed.ensures((button_map()[i].0,), answers[i])
}

/// Asks the pad for the buttons that are held.
pub fn query_joypad_buttons<F: Fn(u32) -> bool>(pressed: F) -> (buttons: u32)
    requires
        forall|i: int|
            0 <= i < button_map().len() ==> pressed.requires(((#[trigger] button_map()[i]).0,)),
    ensures
        exists|answers: Seq<bool>|
            #[trigger] answered(pressed, answers) && buttons == buttons_for(answers, 12),
{
    let map: Vec<(u32, u32)> = vec![
        (RETRO_DEVICE_ID_JOYPAD_UP, BUTTON_UP),
        (RETRO_DEVICE_ID_JOYPAD_DOWN, BUTTON_DOWN),
        (RETRO_DEVICE_ID_JOYPAD_LEFT, BUTTON_LEFT),
        (RETRO_DEVICE_ID_JOYPAD_RIGHT, BUTTON_RIGHT),
        (RETRO_DEVICE_ID_JOYPAD_A, BUTTON_A),
        (RETRO_DEVICE_ID_JOYPAD_B, BUTTON_B),
        (RETRO_DEVICE_ID_JOYPAD_X, BUTTON_X),
        (RETRO_DEVICE_ID_JOYPAD_Y, BUTTON_Y),
        (RETRO_DEVICE_ID_JOYPAD_START, BUTTON_START),
        (RETRO_DEVICE_ID_JOYPAD_SELECT, BUTTON_SELECT),
        (RETRO_DEVICE_ID_JOYPAD_L, BUTTON_L),
        (RETRO_DEVICE_ID_JOYPAD_R, BUTTON_R),
    ];
    assert(map@ =~= button_map());
    let mut buttons: u32 = 0;
    let mut index: usize = 0;
    let ghost mut answers: Seq<bool> = Seq::empty();
    while index < map.len()
        invariant
            index <= map@.len(),
            map@ == button_map(),
            map@.len() == 12,
            answers.len() == index,
            forall|i: int|
                0 <= i < button_map().len() ==> pressed.requires(((#[trigger] button_map()[i]).0,)),
            forall|i: int|
                #![trigger answers[i]]
                0 <= i < index ==> pressed.ensures((button_map()[i].0,), answers[i]),
            buttons == buttons_for(answers, index as int),
        decreases map@.len() - index,
    {
        let (id, mask) = map[index];
        assert(button_map()[index as int] == (id, mask));
        let held = pressed(id);
        proof {
            let longer = answers.push(held);
            lemma_buttons_for(answers, longer, index as int);
            answers = longer;
        }
        if held {
            buttons = buttons | mask;
        }
        index = index + 1;
    }
    assert(answered(pressed, answers));
    buttons
}

proof fn lemma_buttons_for(shorter: Seq<bool>, longer: Seq<bool>, count: int)
    requires
        0 <= count <= shorter.len() <= longer.len(),
        forall|i: int| 0 <= i < count ==> shorter[i] == longer[i],
    ensures
        buttons_for(shorter, count) == buttons_for(longer, count),
    decreases count,
{
    if count > 0 {
        lemma_buttons_for(shorter, longer, count - 1);
    }
}

/// The bit that stands for each button, in the order of the map.
pub open spec fn button_bits() -> Seq<u32> {
    seq![20u32, 27u32, 28u32, 18u32, 31u32, 21u32, 16u32, 6u32, 11u32, 10u32, 8u32, 29u32]
}

proof fn lemma_button_bits(index: int)
    requires
        0 <= index < 12,
    ensures
        button_map()[index].1 == 1u32 << button_bits()[index],
        button_bits()[index] < 32,
{
    assert({
        &&& BUTTON_UP == 1u32 << 20u32
        &&& BUTTON_DOWN == 1u32 << 27u32
        &&& BUTTON_LEFT == 1u32 << 28u32
        &&& BUTTON_RIGHT == 1u32 << 18u32
        &&& BUTTON_A == 1u32 << 31u32
        &&& BUTTON_B == 1u32 << 21u32
        &&& BUTTON_X == 1u32 << 16u32
        &&& BUTTON_Y == 1u32 << 6u32
        &&& BUTTON_START == 1u32 << 11u32
        &&& BUTTON_SELECT == 1u32 << 10u32
        &&& BUTTON_L == 1u32 << 8u32
        &&& BUTTON_R == 1u32 << 29u32
    }) by (bit_vector);
}

proof fn lemma_separate_bits(first: u32, second: u32)
    by (bit_vector)
    requires
        first < 32,
        second < 32,
    ensures
        (1u32 << first) & (1u32 << second) != 0 <==> first == second,
{
}

proof fn lemma_union(left: u32, right: u32, mask: u32)
    by (bit_vector)
    ensures
        (left | right) & mask != 0 <==> left & mask != 0 || right & mask != 0,
        0u32 & mask == 0,
{
}

/// Each button of the console is seen held exactly when the button of the pad that
/// stands for it is.
pub proof fn law_buttons_do_not_mix(answers: Seq<bool>, index: int)
    requires
        answers.len() == 12,
        0 <= index < 12,
    ensures
        buttons_for(answers, 12) & button_map()[index].1 != 0 <==> answers[index],
{
    lemma_held_buttons(answers, 12, index);
}

proof fn lemma_held_buttons(answers: Seq<bool>, count: int, index: int)
    requires
        answers.len() == 12,
        0 <= count <= 12,
        0 <= index < 12,
    ensures
        buttons_for(answers, count) & button_map()[index].1 != 0 <==> index < count
            && answers[index],
    decreases count,
{
    let mask = button_map()[index].1;
    lemma_button_bits(index);
    if count == 0 {
        lemma_union(0, 0, mask);
    } else {
        let earlier = buttons_for(answers, count - 1);
        lemma_held_buttons(answers, count - 1, index);
        lemma_button_bits(count - 1);
        lemma_separate_bits(button_bits()[count - 1], button_bits()[index]);
        lemma_union(earlier, button_map()[count - 1].1, mask);
    }
}

/// A button of the pad, as the frontend shows it. The end of a list has no
/// description.
#[derive(Clone, Copy, Debug)]
pub struct RetroInputDescriptor {
    pub port: u32,
    pub device: u32,
    pub index: u32,
    pub id: u32,
    pub description: Option<&'static str>,
}

/// What the buttons are called, in the order of the map.
pub open spec fn button_names() -> Seq<Seq<char>> {
    seq![
        "D-Pad Up"@,
        "D-Pad Down"@,
        "D-Pad Left"@,
        "D-Pad Right"@,
        "A"@,
        "B"@,
        "X"@,
        "Y"@,
        "Start"@,
        "Select"@,
        "L"@,
        "R"@,
    ]
}

fn describe(id: u32, description: &'static str) -> (descriptor: RetroInputDescriptor)
    ensures
        descriptor == (RetroInputDescriptor {
            port: 0,
            device: RETRO_DEVICE_JOYPAD,
            index: 0,
            id,
            description: Some(description),
        }),
{
    RetroInputDescriptor {
        port: 0,
        device: RETRO_DEVICE_JOYPAD,
        index: 0,
        id,
        description: Some(description),
    }
}

/// Whether a list describes every button, and ends.
pub open spec fn describes_buttons(descriptors: Seq<RetroInputDescriptor>) -> bool {
    &&& descriptors.len() == 13
    &&& forall|i: int|
        #![trigger descriptors[i]]
        0 <= i < 12 ==> {
            &&& descriptors[i].port == 0
            &&& descriptors[i].device == RETRO_DEVICE_JOYPAD
            &&& descriptors[i].index == 0
            &&& descriptors[i].id == button_map()[i].0
            &&& descriptors[i].description matches Some(name) && name@ == button_names()[i]
        }
    &&& descriptors[12] == (RetroInputDescriptor {
        port: 0,
        device: 0,
        index: 0,
        id: 0,
        description: None,
    })
}

/// What each button is called.
pub fn input_descriptors() -> (descriptors: Vec<RetroInputDescriptor>)
    ensures
        describes_buttons(descriptors@),
{
    vec![
        describe(RETRO_DEVICE_ID_JOYPAD_UP, "D-Pad Up"),
        describe(RETRO_DEVICE_ID_JOYPAD_DOWN, "D-Pad Down"),
        describe(RETRO_DEVICE_ID_JOYPAD_LEFT, "D-Pad Left"),
        describe(RETRO_DEVICE_ID_JOYPAD_RIGHT, "D-Pad Right"),
        describe(RETRO_DEVICE_ID_JOYPAD_A, "A"),
        describe(RETRO_DEVICE_ID_JOYPAD_B, "B"),
        describe(RETRO_DEVICE_ID_JOYPAD_X, "X"),
        describe(RETRO_DEVICE_ID_JOYPAD_Y, "Y"),
        describe(RETRO_DEVICE_ID_JOYPAD_START, "Start"),
        describe(RETRO_DEVICE_ID_JOYPAD_SELECT, "Select"),
        describe(RETRO_DEVICE_ID_JOYPAD_L, "L"),
        describe(RETRO_DEVICE_ID_JOYPAD_R, "R"),
        RetroInputDescriptor { port: 0, device: 0, index: 0, id: 0, description: None },
    ]
}

/// Whether a device at a port is none that the machine knows.
pub fn unsupported_controller(port: u32, device: u32) -> (unsupported: bool)
    ensures
        unsupported == (port == 0 && device != RETRO_DEVICE_NONE && device != RETRO_DEVICE_JOYPAD),
{
    port == 0 && device != RETRO_DEVICE_NONE && device != RETRO_DEVICE_JOYPAD
}

// Commands.

/// A command with a number.
#[derive(Clone, Copy, Debug, PartialEq, Eq, Structural)]
pub struct NumberCommand {
    pub command: u32,
    pub value: u32,
}

/// Asks for the format of pictures.
pub fn set_pixel_format() -> (command: NumberCommand)
    ensures
        command == (NumberCommand {
            command: RETRO_ENVIRONMENT_SET_PIXEL_FORMAT,
            value: RETRO_PIXEL_FORMAT_RGB565,
        }),
{
    NumberCommand {
        command: RETRO_ENVIRONMENT_SET_PIXEL_FORMAT,
        value: RETRO_PIXEL_FORMAT_RGB565,
    }
}

/// Tells how demanding the machine is.
pub fn set_performance_level() -> (command: NumberCommand)
    ensures
        command == (NumberCommand {
            command: RETRO_ENVIRONMENT_SET_PERFORMANCE_LEVEL,
            value: PERFORMANCE_LEVEL,
        }),
{
    NumberCommand { command: RETRO_ENVIRONMENT_SET_PERFORMANCE_LEVEL, value: PERFORMANCE_LEVEL }
}

/// Describes the buttons to the frontend.
pub fn register_input_descriptors() -> (command: (u32, Vec<RetroInputDescriptor>))
    ensures
        command.0 == RETRO_ENVIRONMENT_SET_INPUT_DESCRIPTORS,
        describes_buttons(command.1@),
{
    (RETRO_ENVIRONMENT_SET_INPUT_DESCRIPTORS, input_descriptors())
}

/// Offers the options to the player.
pub fn set_core_options(engine_selectable: bool) -> (command: (u32, Vec<RetroVariable>))
    ensures
        command.0 == RETRO_ENVIRONMENT_SET_VARIABLES,
        variable_texts(command.1@) == offered_options(engine_selectable),
{
    (RETRO_ENVIRONMENT_SET_VARIABLES, core_option_variables(engine_selectable))
}

/// Whether options changed, by the frontend's answer.
pub fn core_options_changed(answered: bool, updated: bool) -> (changed: bool)
    ensures
        changed == (answered && updated),
{
    answered && updated
}

/// A directory that the frontend named.
pub fn frontend_directory(answered: bool, value: Option<String>) -> (directory: Option<String>)
    ensures
        directory == match value {
            Some(path) => if answered && path@.len() > 0 {
                Some(path)
            } else {
                None
            },
            None => None,
        },
{
    match value {
        Some(path) => if answered && path.as_str().unicode_len() > 0 {
            Some(path)
        } else {
            None
        },
        None => None,
    }
}

/// Where the report on performance is written: with the saved files, or else beside
/// the application.
pub fn diagnostic_directory(save_directory: Option<&str>, content_path: &str) -> (directory: Option<
    String,
>)
    ensures
        match save_directory {
            Some(path) => directory matches Some(text) && text@ == path@,
            None => match parent_of(content_path@) {
                Some(parent) => directory matches Some(text) && text@ == parent,
                None => directory is None,
            },
        },
{
    match save_directory {
        Some(path) => Some(path.to_owned()),
        None => parent_directory(content_path),
    }
}

// Sound.

/// Whether the frontend is to be asked for reports on its sound buffer, or to be told
/// to stop them.
pub fn update_diagnostic_audio_buffer_status(registered: bool, enabled: bool) -> (request: Option<
    bool,
>)
    ensures
        request == if enabled == registered {
            None
        } else {
            Some(enabled)
        },
{
    if enabled == registered {
        None
    } else {
        Some(enabled)
    }
}

/// Takes the frontend's answer. Says whether it reports from now on.
pub fn audio_buffer_status_answered(
    diagnostics: &mut Diagnostics,
    enabled: bool,
    accepted: bool,
) -> (registered: bool)
    ensures
        registered == (enabled && accepted),
        *final(diagnostics) == if enabled {
            Diagnostics {
                session: match old(diagnostics).session {
                    Some(session) => Some(
                        DiagnosticSession {
                            audio_buffer_status_callback_supported: Some(accepted),
                            ..session
                        },
                    ),
                    None => None,
                },
                ..*old(diagnostics)
            }
        } else {
            *old(diagnostics)
        },
{
    if enabled {
        set_audio_buffer_status_callback_status(diagnostics, accepted);
    }
    enabled && accepted
}

/// The frames of sound that count as accepted. A frontend that takes them one by one
/// accepts them all.
pub fn audio_frames_accepted(requested: usize, answer: Option<usize>) -> (accepted: usize)
    ensures
        accepted == match answer {
            Some(accepted) => if accepted < requested {
                accepted
            } else {
                requested
            },
            None => requested,
        },
{
    match answer {
        Some(accepted) => if accepted < requested {
            accepted
        } else {
            requested
        },
        None => requested,
    }
}

// Frames.

/// What follows a frame.
#[derive(Clone, Copy, Debug, PartialEq, Eq, Structural)]
pub enum FrameOutcome {
    /// It is shown.
    Present,
    /// The frontend is asked to shut down, after a failure.
    Failed,
    /// The frontend is asked to shut down: the application ended.
    Ended,
}

/// What is to be done with a frame.
pub fn frame_outcome(failed: bool, running: bool) -> (outcome: FrameOutcome)
    ensures
        outcome == if failed {
            FrameOutcome::Failed
        } else if !running {
            FrameOutcome::Ended
        } else {
            FrameOutcome::Present
        },
{
    if failed {
        FrameOutcome::Failed
    } else if !running {
        FrameOutcome::Ended
    } else {
        FrameOutcome::Present
    }
}

// Memory.

/// A part of memory that the frontend can look into.
#[derive(Clone, Copy, Debug, PartialEq, Eq, Structural)]
pub enum MemoryRegion {
    SystemRam,
    VideoRam,
}

/// The memory that an identifier stands for.
pub open spec fn region_of(id: u32) -> Option<MemoryRegion> {
    if id & RETRO_MEMORY_MASK == RETRO_MEMORY_SYSTEM_RAM {
        Some(MemoryRegion::SystemRam)
    } else if id & RETRO_MEMORY_MASK == RETRO_MEMORY_VIDEO_RAM {
        Some(MemoryRegion::VideoRam)
    } else {
        None
    }
}

/// The memory that an identifier stands for.
pub fn memory_region(id: u32) -> (region: Option<MemoryRegion>)
    ensures
        region == region_of(id),
{
    let kind: u32 = id & RETRO_MEMORY_MASK;
    if kind == RETRO_MEMORY_SYSTEM_RAM {
        Some(MemoryRegion::SystemRam)
    } else if kind == RETRO_MEMORY_VIDEO_RAM {
        Some(MemoryRegion::VideoRam)
    } else {
        None
    }
}

/// Size of a part of memory; nothing without a machine.
pub fn retro_get_memory_size(emulator: Option<&Emulator>, id: u32) -> (size: usize)
    ensures
        size == match (emulator, region_of(id)) {
            (Some(emulator), Some(MemoryRegion::SystemRam)) => emulator.memory@.ram.len(),
            (Some(emulator), Some(MemoryRegion::VideoRam)) => emulator.memory@.framebuffer.len(),
            _ => 0,
        },
{
    match (emulator, memory_region(id)) {
        (Some(emulator), Some(MemoryRegion::SystemRam)) => emulator.memory.system_ram().len(),
        (Some(emulator), Some(MemoryRegion::VideoRam)) => emulator.memory.framebuffer().len(),
        _ => 0,
    }
}

/// Where the guest sees a part of memory.
#[derive(Clone, Copy, Debug, PartialEq, Eq, Structural)]
pub struct MemoryDescriptor {
    pub flags: u64,
    pub region: MemoryRegion,
    pub start: usize,
    pub len: usize,
}

/// The parts of memory, for the frontend.
pub fn memory_descriptors(emulator: &Emulator) -> (descriptors: Vec<MemoryDescriptor>)
    ensures
        descriptors@ == seq![
            MemoryDescriptor {
                flags: RETRO_MEMDESC_SYSTEM_RAM,
                region: MemoryRegion::SystemRam,
                start: 0,
                len: emulator.memory@.ram.len() as usize,
            },
            MemoryDescriptor {
                flags: RETRO_MEMDESC_VIDEO_RAM,
                region: MemoryRegion::VideoRam,
                start: VM_LCD_FB_ADDRESS as usize,
                len: emulator.memory@.framebuffer.len() as usize,
            },
        ],
{
    let system = MemoryDescriptor {
        flags: RETRO_MEMDESC_SYSTEM_RAM,
        region: MemoryRegion::SystemRam,
        start: 0,
        len: emulator.memory.system_ram().len(),
    };
    let video = MemoryDescriptor {
        flags: RETRO_MEMDESC_VIDEO_RAM,
        region: MemoryRegion::VideoRam,
        start: VM_LCD_FB_ADDRESS as usize,
        len: emulator.memory.framebuffer().len(),
    };
    vec![system, video]
}

/// Size of a buffer for a saved state; nothing without a machine.
pub fn retro_serialize_size(emulator: Option<&Emulator>) -> (size: usize)
    ensures
        size == match emulator {
            Some(_) => SERIALIZED_SIZE,
            None => 0,
        },
{
    match emulator {
        Some(emulator) => emulator.serialized_state_size(),
        None => 0,
    }
}

/// Whether a buffer is one for a saved state.
pub fn accepts_state_buffer(loaded: bool, present: bool, size: usize) -> (accepted: bool)
    ensures
        accepted == (loaded && present && size >= SERIALIZED_SIZE),
{
    loaded && present && size >= SERIALIZED_SIZE
}

// Options.

/// What applying options asks of the host.
#[derive(Debug)]
pub struct AppliedOptions {
    /// Why the application could not be patched.
    pub enhancement_error: Option<SimulatorError>,
    /// Whether compiled code is no longer valid.
    pub replace_backend: bool,
    pub report: ReportRequest,
    /// Whether reports on the sound buffer are wanted.
    pub watch_audio_buffer: bool,
}

/// The machine with options set, but for the patches that one of them stands for.
pub open spec fn with_options(emulator: Emulator, options: CoreOptions) -> Emulator {
    Emulator {
        audio: crate::audio::Audio {
            master_volume: if options.volume > 100 {
                100
            } else {
                options.volume
            },
            ..emulator.audio
        },
        input: crate::input::Input {
            repeat_delay: options.repeat_delay,
            repeat_period: options.repeat_period,
            swap_ab: options.swap_ab,
            ..emulator.input
        },
        ..emulator
    }
}

/// The machine with the options set that take effect in running code.
pub open spec fn with_engine_options(emulator: Emulator, options: CoreOptions) -> Emulator {
    Emulator {
        cpu: Cpu {
            unknown_instruction_policy: options.unknown_instruction_policy,
            ..emulator.cpu
        },
        jit: crate::jit::engine::JitEngine {
            enabled: options.jit_enabled,
            diagnostics_enabled: options.diagnostics_enabled,
            counters: if options.diagnostics_enabled && !emulator.jit.diagnostics_enabled {
                crate::jit::engine::zero_counters()
            } else {
                emulator.jit.counters
            },
            ..emulator.jit
        },
        ..emulator
    }
}

/// What applying options does.
pub open spec fn options_applied(
    before: Emulator,
    after: Emulator,
    options: CoreOptions,
    applied: AppliedOptions,
) -> bool {
    let set = with_options(before, options);
    let enabled = options.frame_rate_enhancement_enabled;
    match known_patches(before.app) {
        None => {
            &&& after == with_engine_options(set, options)
            &&& applied.enhancement_error is None
            &&& !applied.replace_backend
        },
        Some(patches) => match first_obstacle(before.memory@, patches, 0) {
            Some(error) => {
                &&& after == with_engine_options(
                    Emulator { memory: after.memory, ..set },
                    options,
                )
                &&& after.memory@ == before.memory@
                &&& after.memory.heap_next == before.memory.heap_next
                &&& applied.enhancement_error == Some(error)
                &&& !applied.replace_backend
            },
            None => {
                &&& exists|patched_machine: Emulator|
                    {
                        &&& #[trigger] patched_machine.instructions_forgotten(
                            &(Emulator { memory: after.memory, ..set }),
                        )
                        &&& after == with_engine_options(patched_machine, options)
                    }
                &&& after.memory@ == patched(before.memory@, patches, enabled)
                &&& after.memory.heap_next == before.memory.heap_next
                &&& applied.enhancement_error is None
                &&& applied.replace_backend == (before.jit.compiled_block_count != 0
                    && before.jit.backend_available)
            },
        },
    }
}

/// Applies options to the machine and to the diagnostics.
pub fn apply_core_options(
    emulator: &mut Emulator,
    diagnostics: &mut Diagnostics,
    options: CoreOptions,
) -> (applied: AppliedOptions)
    requires
        old(emulator).wf(),
    ensures
        final(emulator).wf(),
        options_applied(*old(emulator), *final(emulator), options, applied),
        switched(
            *old(diagnostics),
            *final(diagnostics),
            options.diagnostics_enabled,
            applied.report,
        ),
        applied.watch_audio_buffer == final(diagnostics).enabled,
{
    emulator.audio.set_master_volume(options.volume);
    emulator.input.set_repeat_timing(options.repeat_delay, options.repeat_period);
    emulator.input.set_swap_ab(options.swap_ab);
    let ghost set = *emulator;
    let (enhancement_error, replace_backend) = match emulator.set_frame_rate_enhancement_enabled(
        options.frame_rate_enhancement_enabled,
    ) {
        Ok(replace) => (None, replace),
        Err(error) => (Some(error), false),
    };
    let ghost enhanced = *emulator;
    emulator.cpu.set_unknown_instruction_policy(options.unknown_instruction_policy);
    emulator.set_jit_enabled(options.jit_enabled);
    emulator.set_jit_diagnostics_enabled(options.diagnostics_enabled);
    let report = set_enabled(diagnostics, options.diagnostics_enabled);
    let watch_audio_buffer = is_enabled(diagnostics);
    proof {
        assert(set == with_options(*old(emulator), options));
        assert(*emulator == with_engine_options(enhanced, options));
    }
    AppliedOptions { enhancement_error, replace_backend, report, watch_audio_buffer }
}

} // verus!
