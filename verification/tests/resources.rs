use dingooemu::app_image::ResourceKind;
use dingooemu::game_enhancements::{
    apply_frame_rate_enhancement, frame_rate_enhancement_profile, frame_rate_enhancement_profiles,
    InstructionPatch, EXTREME_DRIFT_DOUBLE_TIMER_DIVIDER, EXTREME_DRIFT_HALF_TIMESTEP,
    EXTREME_DRIFT_ORIGINAL_TIMER_DIVIDER, EXTREME_DRIFT_ORIGINAL_TIMESTEP,
};
use dingooemu::app_image::AppImage;
use dingooemu::error::SimulatorError;
use dingooemu::memory::Memory;
use dingooemu::resource::prepare_resource_file_data;
use dingooemu::sdk_hle::files::is_firmware_return_request;

#[test]
fn test_packed_bin_resource_view_inserts_header() {
    let mut data = vec![0; 24];
    data[0..2].copy_from_slice(&1_u16.to_le_bytes());
    data[4..8].copy_from_slice(&0x1122_3344_u32.to_le_bytes());
    data[8..12].copy_from_slice(&0x260a_1300_u32.to_le_bytes());
    data[12..24].copy_from_slice(&[1, 2, 3, 4, 5, 6, 7, 8, 9, 10, 11, 12]);

    let view = prepare_resource_file_data("brick.bin", ResourceKind::Packed, data);

    assert_eq!(view.len(), 40);
    assert_eq!(u32::from_le_bytes(view[0..4].try_into().unwrap()), 1);
    assert_eq!(u32::from_le_bytes(view[4..8].try_into().unwrap()), 0);
    assert_eq!(u32::from_le_bytes(view[8..12].try_into().unwrap()), 20);
    assert_eq!(&view[12..16], &0x1122_3344_u32.to_le_bytes());
    assert_eq!(&view[16..20], &[0; 4]);
    assert_eq!(&view[20..32], &[1, 2, 3, 4, 5, 6, 7, 8, 9, 10, 11, 12]);
    assert_eq!(&view[32..40], &[0; 8]);
}

#[test]
fn test_regular_resource_data_remains_unchanged() {
    let mut data = vec![0x5a; 12];
    data[8..12].copy_from_slice(&12_u32.to_le_bytes());

    assert_eq!(
        prepare_resource_file_data("image.bin", ResourceKind::Packed, data.clone()),
        data
    );
}

#[test]
fn only_packed_bin_resources_get_a_header() {
    let mut data = vec![1u8; 24];
    data[8..12].copy_from_slice(&0x260a_1300_u32.to_le_bytes());
    for (name, kind) in [
        ("brick.bin", ResourceKind::Plain),
        ("brick.tga", ResourceKind::Packed),
        ("bin", ResourceKind::Packed),
    ] {
        assert_eq!(prepare_resource_file_data(name, kind, data.clone()), data);
    }
    assert_eq!(
        prepare_resource_file_data("BRICK.BIN", ResourceKind::Packed, data.clone()).len(),
        40
    );
}

#[test]
fn recognizes_observed_firmware_return_sentinels() {
    assert!(is_firmware_return_request(&[0xDE88, 0x80AA], "rb"));
    assert!(is_firmware_return_request(&[0x88C0, 0x80AD], "rb"));

    assert!(!is_firmware_return_request(&[0xDE88, 0x80AA], "wb"));
    assert!(!is_firmware_return_request(&[0x88C0, 0x80AD], "r"));
    assert!(!is_firmware_return_request(&[0xDE88, 0x80AA, 0x0001], "rb"));
    assert!(!is_firmware_return_request(&[b'a' as u16], "rb"));
}

#[test]
fn profiles_cover_both_verified_extreme_drift_releases() {
    let profiles = frame_rate_enhancement_profiles();
    assert_eq!(profiles.len(), 2);
    assert_eq!(profiles[0].name, "Extreme Drift (trial)");
    assert_eq!(profiles[0].identity.file_size, 12_843_417);
    assert_eq!(profiles[0].identity.crc32, 0xFA67_BD03);
    assert_eq!(profiles[1].name, "Extreme Drift (full)");
    assert_eq!(profiles[1].identity.file_size, 15_443_327);
    assert_eq!(profiles[1].identity.crc32, 0xA2F6_F7BC);
    assert_eq!(
        profiles[0].patches,
        &[
            InstructionPatch {
                address: 0x80A1_CEC0,
                original: EXTREME_DRIFT_ORIGINAL_TIMESTEP,
                replacement: EXTREME_DRIFT_HALF_TIMESTEP,
            },
            InstructionPatch {
                address: 0x80A1_99C0,
                original: EXTREME_DRIFT_ORIGINAL_TIMER_DIVIDER,
                replacement: EXTREME_DRIFT_DOUBLE_TIMER_DIVIDER,
            },
        ]
    );
    assert_eq!(
        profiles[1].patches,
        &[
            InstructionPatch {
                address: 0x80A8_AEB0,
                original: EXTREME_DRIFT_ORIGINAL_TIMESTEP,
                replacement: EXTREME_DRIFT_HALF_TIMESTEP,
            },
            InstructionPatch {
                address: 0x80A8_79B4,
                original: EXTREME_DRIFT_ORIGINAL_TIMER_DIVIDER,
                replacement: EXTREME_DRIFT_DOUBLE_TIMER_DIVIDER,
            },
        ]
    );
}

#[test]
fn patches_are_reversible_and_reject_unexpected_code() {
    for profile in &frame_rate_enhancement_profiles() {
        let mut memory = Memory::new();
        for patch in &profile.patches {
            memory.write_u32(patch.address, patch.original).unwrap();
        }

        apply_frame_rate_enhancement(&mut memory, profile, true).unwrap();
        for patch in &profile.patches {
            assert_eq!(memory.read_u32(patch.address).unwrap(), patch.replacement);
        }

        apply_frame_rate_enhancement(&mut memory, profile, false).unwrap();
        for patch in &profile.patches {
            assert_eq!(memory.read_u32(patch.address).unwrap(), patch.original);
            memory.write_u32(patch.address, 0).unwrap();
        }
        assert!(apply_frame_rate_enhancement(&mut memory, profile, true).is_err());
    }
}

#[test]
fn an_unexpected_instruction_is_named_in_the_error() {
    let profile = &frame_rate_enhancement_profiles()[0];
    let mut memory = Memory::new();
    assert_eq!(
        apply_frame_rate_enhancement(&mut memory, profile, true),
        Err(SimulatorError::PatchMismatch {
            address: 0x80A1_CEC0,
            original: EXTREME_DRIFT_ORIGINAL_TIMESTEP,
            replacement: EXTREME_DRIFT_HALF_TIMESTEP,
            found: 0,
        })
    );
}

#[test]
fn other_applications_have_no_profile() {
    let app = AppImage {
        data: vec![0u8; 132],
        load_base: 0x80A0_0000,
        entry_point: 0x80A0_00A0,
        executable: vec![0u8; 4],
        imports: Vec::new(),
        exports: Vec::new(),
    };
    assert!(frame_rate_enhancement_profile(&app).is_none());
}
