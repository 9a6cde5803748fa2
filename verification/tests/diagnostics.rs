use dingooemu::diagnostics::{
    average, configure, finish, frame_timer, is_enabled, record_audio_buffer_status, record_frame,
    set_audio_buffer_status_callback_status, set_enabled, status, DiagnosticSession, Diagnostics,
    FrameTimes, FrameTiming, HostInfo, ReportRequest,
};
use dingooemu::jit::block::JitFailureReason;
use dingooemu::jit::engine::{JitDiagnostics, JitFailedBlockHotspot};

fn host() -> HostInfo {
    HostInfo {
        core_version: "0.2.0".to_string(),
        target_os: "linux".to_string(),
        target_arch: "x86_64".to_string(),
        pointer_width: 64,
    }
}

fn times(tick_us: u128) -> FrameTimes {
    FrameTimes { tick_us, run_us: 2 * tick_us, video_us: 3, audio_us: 4 }
}

#[test]
fn diagnostics_are_dormant_by_default() {
    let diagnostics = Diagnostics::new();
    assert!(!is_enabled(&diagnostics));
    assert!(frame_timer(&diagnostics, 17).is_none());
}

#[test]
fn report_contains_the_complete_comparison_schema() {
    let mut session = DiagnosticSession::new(Some("/tmp/schema"), "games/test.app", 22_050);
    session.enabled = true;
    session.audio_buffer_status_callback_supported = Some(true);
    session.record_frame(
        FrameTimes { tick_us: 12_345, run_us: 23_456, video_us: 3_456, audio_us: 7_655 },
        368,
        300,
    );
    let report = session.report(
        &JitDiagnostics {
            feature_available: true,
            enabled: true,
            backend_available: true,
            native_executions: 7,
            ..JitDiagnostics::default()
        },
        &host(),
        42,
    );

    assert_eq!(session.path, Some("/tmp/schema/dingooemu-diagnostic.txt".to_string()));
    for expected in [
        "format_version=7",
        "content=test.app",
        "frames=1",
        "tick_max_us=12345",
        "run_max_us=23456",
        "video_max_us=3456",
        "audio_max_us=7655",
        "recent_tick_average_us=12345",
        "audio_frames_requested=368",
        "audio_frames_accepted=300",
        "audio_short_writes=1",
        "audio_output_sample_rate_hz=22050",
        "audio_minimum_latency_ms=0",
        "audio_latency_request_status=not_requested",
        "audio_buffer_status_callback_status=accepted",
        "async_audio_callback_status=unsupported",
        "async_audio_enabled=false",
        "jit_native_executions=7",
        "jit_zero_exit_fallbacks=0",
        "jit_below_hot_threshold_fallbacks=0",
        "jit_slow_memory_exits=0",
        "jit_fast_cache_collisions=0",
        "jit_failed_hotspot_count=0",
    ] {
        assert!(report.contains(expected), "missing report field: {expected}");
    }
    assert!(report.starts_with(
        "DingooEmu performance diagnostics\nformat_version=7\ncore_version=0.2.0\n\
target_os=linux\ntarget_arch=x86_64\npointer_width=64\ncontent=test.app\nelapsed_ms=42\nframes=1\n"
    ));
    assert!(report.ends_with("jit_fast_cache_collisions=0\njit_failed_hotspot_count=0\n"));
}

#[test]
fn failed_blocks_are_listed_in_the_report() {
    let session = DiagnosticSession::new(None, "test.app", 22_050);
    let mut jit = JitDiagnostics::default();
    jit.failed_hotspot_count = 1;
    jit.failed_hotspots[0] = JitFailedBlockHotspot {
        start: 0x1a0,
        reason: JitFailureReason::UnsupportedBranch,
        candidate_len: 3,
        blocking_instruction: 0xdead_beef,
        fallbacks: 12,
    };
    let report = session.report(&jit, &host(), 0);
    assert!(report.ends_with(
        "jit_failed_hotspot_count=1\njit_failed_hotspot_0=0x000001a0,unsupported_branch,3,0xdeadbeef,12\n"
    ));
}

#[test]
fn content_is_named_by_its_file() {
    for (path, name) in [
        ("games/test.app", "test.app"),
        ("test.app/", "test.app"),
        ("/", "unknown.app"),
        ("", "unknown.app"),
        ("games/..", "unknown.app"),
    ] {
        assert_eq!(DiagnosticSession::new(None, path, 0).content_name, name);
    }
}

#[test]
fn switching_needs_a_session_and_a_place_for_the_report() {
    let mut diagnostics = Diagnostics::new();
    assert_eq!(set_enabled(&mut diagnostics, true), ReportRequest::Nothing);

    configure(&mut diagnostics, None, "test.app", 22_050);
    assert_eq!(set_enabled(&mut diagnostics, true), ReportRequest::NoDirectory);
    assert!(!is_enabled(&diagnostics));

    configure(&mut diagnostics, Some("/tmp"), "test.app", 22_050);
    assert_eq!(set_enabled(&mut diagnostics, true), ReportRequest::Write);
    assert!(is_enabled(&diagnostics));
    assert_eq!(frame_timer(&diagnostics, 17), Some(17));
    assert_eq!(set_enabled(&mut diagnostics, true), ReportRequest::Nothing);
    assert_eq!(set_enabled(&mut diagnostics, false), ReportRequest::Write);
    assert!(finish(&mut diagnostics).is_none());
}

#[test]
fn a_report_is_due_after_every_interval() {
    let mut diagnostics = Diagnostics::new();
    configure(&mut diagnostics, Some("/tmp"), "test.app", 22_050);
    assert!(!record_frame(&mut diagnostics, times(10), 1, 1));
    set_enabled(&mut diagnostics, true);
    for frame in 1..=120u64 {
        assert_eq!(
            record_frame(&mut diagnostics, times(frame as u128), 367, 367),
            frame % 60 == 0
        );
    }
    let session = finish(&mut diagnostics).unwrap();
    assert_eq!(session.total.frames, 120);
    assert_eq!(session.recent.frames, 60);
    assert_eq!(session.recent.tick_max_us, 120);
    assert_eq!(session.recent.average(session.recent.tick_total_us), 90);
    assert_eq!(session.audio_short_writes, 0);
    assert!(!is_enabled(&diagnostics));
}

#[test]
fn sound_buffer_reports_count_only_while_enabled() {
    let mut diagnostics = Diagnostics::new();
    configure(&mut diagnostics, Some("/tmp"), "test.app", 22_050);
    record_audio_buffer_status(&mut diagnostics, true, 50, false);
    set_enabled(&mut diagnostics, true);
    set_audio_buffer_status_callback_status(&mut diagnostics, false);
    record_audio_buffer_status(&mut diagnostics, true, 70, false);
    record_audio_buffer_status(&mut diagnostics, false, 20, true);
    let session = finish(&mut diagnostics).unwrap();
    assert_eq!(session.audio_buffer_status_callbacks, 2);
    assert_eq!(session.audio_buffer_active_callbacks, 1);
    assert_eq!(session.audio_buffer_occupancy_min, Some(20));
    assert_eq!(session.audio_buffer_occupancy_max, 70);
    assert_eq!(session.audio_buffer_underrun_likely, 1);
    assert_eq!(session.audio_buffer_status_callback_supported, Some(false));
    assert_eq!(
        average(session.audio_buffer_occupancy_total, session.audio_buffer_status_callbacks),
        45
    );
}

#[test]
fn small_figures_have_their_texts() {
    assert_eq!(status(Some(true)), "accepted");
    assert_eq!(status(Some(false)), "rejected");
    assert_eq!(status(None), "pending");
    assert_eq!(average(10, 0), 0);
    assert_eq!(FrameTiming::default().average(100), 0);
    let mut session = DiagnosticSession::new(None, "test.app", 0);
    assert!(session.report_write_error());
    assert!(!session.report_write_error());
}
