use dingooemu::app_image::AppImage;
use dingooemu::cpu::UnknownInstructionPolicy;
use dingooemu::diagnostics::{configure, Diagnostics, ReportRequest};
use dingooemu::emulator::Emulator;
use dingooemu::frontend::{
    accepts_state_buffer, apply_core_options, audio_buffer_status_answered, audio_frames_accepted,
    core_options_changed, diagnostic_directory, frame_outcome, frontend_directory,
    input_descriptors, memory_descriptors, query_joypad_buttons, register_input_descriptors,
    retro_get_memory_size, retro_serialize_size, set_core_options, set_performance_level,
    set_pixel_format, unsupported_controller, update_diagnostic_audio_buffer_status, FrameOutcome,
    RETRO_DEVICE_ID_JOYPAD_A, RETRO_DEVICE_ID_JOYPAD_R, RETRO_DEVICE_ID_JOYPAD_START,
    RETRO_DEVICE_ID_JOYPAD_UP, RETRO_DEVICE_JOYPAD, RETRO_ENVIRONMENT_SET_INPUT_DESCRIPTORS,
    RETRO_ENVIRONMENT_SET_VARIABLES, RETRO_MEMORY_SYSTEM_RAM, RETRO_MEMORY_VIDEO_RAM,
    RETRO_PIXEL_FORMAT_RGB565,
};
use dingooemu::input::{BUTTON_A, BUTTON_R, BUTTON_START, BUTTON_UP};
use dingooemu::memory::VM_LCD_FB_ADDRESS;
use dingooemu::options::{core_option_variables, read_core_options, parse_number, CoreOptions};
use dingooemu::save_state::SERIALIZED_SIZE;

fn options(values: &[(&str, &str)]) -> CoreOptions {
    read_core_options(
        &values
            .iter()
            .map(|(key, value)| (key.to_string(), value.to_string()))
            .collect(),
    )
}

#[test]
fn maps_retropad_buttons_to_dingoo_masks() {
    let buttons = query_joypad_buttons(|id| {
        matches!(
            id,
            RETRO_DEVICE_ID_JOYPAD_UP
                | RETRO_DEVICE_ID_JOYPAD_A
                | RETRO_DEVICE_ID_JOYPAD_START
                | RETRO_DEVICE_ID_JOYPAD_R
        )
    });

    assert_eq!(buttons, BUTTON_UP | BUTTON_A | BUTTON_START | BUTTON_R);
}

#[test]
fn no_button_held_gives_none() {
    assert_eq!(query_joypad_buttons(|_| false), 0);
    assert_eq!(query_joypad_buttons(|_| true).count_ones(), 12);
}

#[test]
fn terminates_input_descriptor_array() {
    let descriptors = input_descriptors();
    assert_eq!(descriptors.len(), 13);
    assert!(descriptors[..12]
        .iter()
        .all(|descriptor| descriptor.description.is_some()));
    assert!(descriptors[12].description.is_none());
    assert_eq!(descriptors[0].description, Some("D-Pad Up"));
    assert_eq!(descriptors[8].id, RETRO_DEVICE_ID_JOYPAD_START);
}

#[test]
fn volume_core_option_has_stable_key_and_default() {
    let variables = core_option_variables(false);
    assert_eq!(variables[0].key, Some("dingooemu_volume"));
    assert!(variables[0]
        .value
        .unwrap()
        .ends_with("; 100|90|80|70|60|50|40|30|20|10|0"));
    assert!(variables.last().unwrap().key.is_none());

    assert_eq!(options(&[("dingooemu_volume", "30")]).volume, 30);
    assert_eq!(options(&[("dingooemu_volume", "200")]).volume, 100);
    assert_eq!(options(&[("dingooemu_volume", "300")]).volume, 100);
    assert_eq!(options(&[("dingooemu_volume", "loud")]).volume, 100);
}

#[test]
fn repeat_delay_option_supports_live_typematic_control() {
    let variables = core_option_variables(false);
    assert_eq!(variables[1].key, Some("dingooemu_repeat_delay"));
    assert_eq!(options(&[("dingooemu_repeat_delay", "12")]).repeat_delay, 12);
}

#[test]
fn repeat_period_option_rejects_zero_semantically() {
    let variables = core_option_variables(false);
    assert_eq!(variables[2].key, Some("dingooemu_repeat_period"));
    assert_eq!(options(&[("dingooemu_repeat_period", "0")]).repeat_period, 1);
}

#[test]
fn swap_ab_option_defaults_to_disabled() {
    let variables = core_option_variables(false);
    assert_eq!(variables[3].key, Some("dingooemu_swap_ab"));
    assert!(!options(&[]).swap_ab);
    assert!(options(&[("dingooemu_swap_ab", "enabled")]).swap_ab);
}

#[test]
fn frame_rate_enhancement_option_defaults_to_disabled() {
    let variables = core_option_variables(false);
    let variable = variables
        .iter()
        .find(|variable| variable.key == Some("dingooemu_frame_rate_enhancement"))
        .unwrap();
    assert!(variable
        .value
        .unwrap()
        .starts_with("Frame Rate Enhancement; disabled"));
    assert!(!options(&[]).frame_rate_enhancement_enabled);
    assert!(
        options(&[("dingooemu_frame_rate_enhancement", "enabled")]).frame_rate_enhancement_enabled
    );
}

#[test]
fn performance_diagnostics_option_defaults_to_disabled() {
    let variables = core_option_variables(false);
    assert_eq!(variables[4].key, Some("dingooemu_debug_logging"));
    assert!(variables[4]
        .value
        .unwrap()
        .starts_with("Performance Diagnostic Log; disabled"));
    assert!(!options(&[]).diagnostics_enabled);
    assert!(options(&[("dingooemu_debug_logging", "enabled")]).diagnostics_enabled);
}

#[test]
fn unknown_instruction_option_preserves_skip_default() {
    let variables = core_option_variables(false);
    assert_eq!(variables[5].key, Some("dingooemu_unknown_instruction"));
    assert_eq!(
        options(&[]).unknown_instruction_policy,
        UnknownInstructionPolicy::Skip
    );
    assert_eq!(
        options(&[("dingooemu_unknown_instruction", "stop")]).unknown_instruction_policy,
        UnknownInstructionPolicy::Stop
    );
}

#[test]
fn cpu_engine_option_defaults_to_jit_and_allows_interpreter() {
    let variables = core_option_variables(true);
    assert_eq!(variables[6].key, Some("dingooemu_cpu_engine"));
    assert!(options(&[]).jit_enabled);
    assert!(!options(&[("dingooemu_cpu_engine", "interpreter")]).jit_enabled);
    assert_eq!(core_option_variables(false).len() + 1, variables.len());
}

#[test]
fn numbers_are_read_up_to_their_limit() {
    assert_eq!(parse_number("255", 255), Some(255));
    assert_eq!(parse_number("256", 255), None);
    assert_eq!(parse_number("+7", 255), Some(7));
    assert_eq!(parse_number("007", 255), Some(7));
    assert_eq!(parse_number("", 255), None);
    assert_eq!(parse_number("+", 255), None);
    assert_eq!(parse_number("-1", 255), None);
    assert_eq!(parse_number("1x", 255), None);
    assert_eq!(parse_number("4294967295", u32::MAX), Some(u32::MAX));
    assert_eq!(parse_number("4294967296", u32::MAX), None);
    assert_eq!(parse_number("99999999999999999999999", u32::MAX), None);
}

#[test]
fn options_take_effect_on_the_machine() {
    let app = AppImage {
        data: vec![0u8; 132],
        load_base: 0x8000_0000,
        entry_point: 0x8000_0000,
        executable: vec![0u8; 4],
        imports: Vec::new(),
        exports: Vec::new(),
    };
    let mut emulator = Emulator::from_app(app, true).unwrap();
    let mut diagnostics = Diagnostics::new();
    configure(&mut diagnostics, Some("/tmp"), "content.app", 22_050);
    let chosen = options(&[
        ("dingooemu_volume", "40"),
        ("dingooemu_repeat_delay", "10"),
        ("dingooemu_repeat_period", "5"),
        ("dingooemu_swap_ab", "enabled"),
        ("dingooemu_debug_logging", "enabled"),
        ("dingooemu_unknown_instruction", "stop"),
        ("dingooemu_cpu_engine", "interpreter"),
        ("dingooemu_frame_rate_enhancement", "enabled"),
    ]);
    let applied = apply_core_options(&mut emulator, &mut diagnostics, chosen);
    assert!(applied.enhancement_error.is_none());
    assert!(!applied.replace_backend);
    assert_eq!(applied.report, ReportRequest::Write);
    assert!(applied.watch_audio_buffer);
    assert_eq!(emulator.audio.master_volume(), 40);
    assert_eq!(emulator.input.repeat_delay, 10);
    assert_eq!(emulator.input.repeat_period, 5);
    assert!(emulator.input.swap_ab);
    assert_eq!(
        emulator.cpu.unknown_instruction_policy,
        UnknownInstructionPolicy::Stop
    );
    assert!(!emulator.jit_diagnostics().enabled);
}

#[test]
fn commands_carry_their_numbers() {
    assert_eq!(set_pixel_format().value, RETRO_PIXEL_FORMAT_RGB565);
    assert_eq!(set_pixel_format().command, 10);
    assert_eq!((set_performance_level().command, set_performance_level().value), (8, 4));
    assert_eq!(register_input_descriptors().0, RETRO_ENVIRONMENT_SET_INPUT_DESCRIPTORS);
    assert_eq!(register_input_descriptors().1.len(), 13);
    assert_eq!(set_core_options(false).0, RETRO_ENVIRONMENT_SET_VARIABLES);
    assert_eq!(set_core_options(false).1.len(), 8);
    assert!(core_options_changed(true, true));
    assert!(!core_options_changed(true, false));
    assert!(!core_options_changed(false, true));
}

#[test]
fn memory_is_shown_by_its_kind() {
    let emulator = Emulator::default();
    assert_eq!(
        retro_get_memory_size(Some(&emulator), RETRO_MEMORY_SYSTEM_RAM),
        32 * 1024 * 1024
    );
    assert!(retro_get_memory_size(Some(&emulator), RETRO_MEMORY_VIDEO_RAM) >= 320 * 240 * 2);
    assert_eq!(retro_get_memory_size(Some(&emulator), 0), 0);
    assert_eq!(retro_get_memory_size(None, RETRO_MEMORY_SYSTEM_RAM), 0);
    let descriptors = memory_descriptors(&emulator);
    assert_eq!(descriptors.len(), 2);
    assert_eq!(descriptors[1].start, VM_LCD_FB_ADDRESS as usize);
    assert_eq!(retro_serialize_size(Some(&emulator)), SERIALIZED_SIZE);
    assert_eq!(retro_serialize_size(None), 0);
    assert!(accepts_state_buffer(true, true, SERIALIZED_SIZE));
    assert!(!accepts_state_buffer(true, true, SERIALIZED_SIZE - 1));
    assert!(!accepts_state_buffer(true, false, SERIALIZED_SIZE));
    assert!(!accepts_state_buffer(false, true, SERIALIZED_SIZE));
}

#[test]
fn the_frontend_is_asked_once_for_sound_buffer_reports() {
    assert_eq!(update_diagnostic_audio_buffer_status(false, false), None);
    assert_eq!(update_diagnostic_audio_buffer_status(false, true), Some(true));
    assert_eq!(update_diagnostic_audio_buffer_status(true, false), Some(false));
    let mut diagnostics = Diagnostics::new();
    configure(&mut diagnostics, None, "content.app", 22_050);
    assert!(!audio_buffer_status_answered(&mut diagnostics, true, false));
    assert_eq!(
        diagnostics.session.as_ref().unwrap().audio_buffer_status_callback_supported,
        Some(false)
    );
    assert!(audio_buffer_status_answered(&mut diagnostics, true, true));
    assert!(!audio_buffer_status_answered(&mut diagnostics, false, true));
}

#[test]
fn frames_end_in_one_of_three_ways() {
    assert_eq!(frame_outcome(true, true), FrameOutcome::Failed);
    assert_eq!(frame_outcome(false, false), FrameOutcome::Ended);
    assert_eq!(frame_outcome(false, true), FrameOutcome::Present);
    assert_eq!(audio_frames_accepted(368, Some(300)), 300);
    assert_eq!(audio_frames_accepted(368, Some(400)), 368);
    assert_eq!(audio_frames_accepted(368, None), 368);
    assert!(unsupported_controller(0, 5));
    assert!(!unsupported_controller(0, RETRO_DEVICE_JOYPAD));
    assert!(!unsupported_controller(1, 5));
}

#[test]
fn directories_come_from_the_frontend_or_the_content() {
    assert_eq!(frontend_directory(true, Some(String::new())), None);
    assert_eq!(frontend_directory(false, Some("/saves".to_string())), None);
    assert_eq!(
        frontend_directory(true, Some("/saves".to_string())),
        Some("/saves".to_string())
    );
    assert_eq!(diagnostic_directory(Some("/saves"), "/a/b.app"), Some("/saves".to_string()));
    assert_eq!(diagnostic_directory(None, "/a/b.app"), Some("/a".to_string()));
    assert_eq!(diagnostic_directory(None, "/b.app"), Some("/".to_string()));
    assert_eq!(diagnostic_directory(None, "b.app"), Some(String::new()));
    assert_eq!(diagnostic_directory(None, "/"), None);
}
