//! Performance figures of a session, and the report that shows them.
//!
//! Times are in microseconds, and are measured by the host. Whether figures are
//! collected at all is for the player to choose; by default none are.

use crate::directories::{last_part, path_parts};
use crate::jit::engine::{JIT_FAILED_HOTSPOT_LIMIT, JitDiagnostics, JitFailedBlockHotspot};
use crate::paths::{join_path, joined};
use crate::text::{decimal, digits, push_decimal, push_digits, push_repeated, repeated};
use vstd::prelude::*;
use vstd::string::*;

verus! {

/// Frames between two reports, and in the recent figures.
pub const REPORT_INTERVAL_FRAMES: u64 = 60;

/// The file that the report is written to.
pub open spec fn report_file_name() -> Seq<char> {
    "dingooemu-diagnostic.txt"@
}

/// A number, or the largest of its kind.
pub open spec fn clamped_to(value: int, limit: int) -> int {
    if value > limit {
        limit
    } else {
        value
    }
}

/// The larger of two numbers.
pub open spec fn larger(left: u128, right: u128) -> u128 {
    if left >= right {
        left
    } else {
        right
    }
}

fn add_up(total: u128, value: u128) -> (sum: u128)
    ensures
        sum == clamped_to(total + value, u128::MAX as int),
{
    if value > u128::MAX - total {
        u128::MAX
    } else {
        total + value
    }
}

fn count_up(total: u64, value: u64) -> (sum: u64)
    ensures
        sum == clamped_to(total + value, u64::MAX as int),
{
    if value > u64::MAX - total {
        u64::MAX
    } else {
        total + value
    }
}

fn maximum(left: u128, right: u128) -> (result: u128)
    ensures
        result == larger(left, right),
{
    if left >= right {
        left
    } else {
        right
    }
}

/// How long the parts of a frame took.
#[derive(Clone, Copy, Debug, PartialEq, Eq, Structural)]
pub struct FrameTimes {
    pub tick_us: u128,
    pub run_us: u128,
    pub video_us: u128,
    pub audio_us: u128,
}

/// Totals and maxima over frames.
#[derive(Clone, Copy, Debug, PartialEq, Eq, Structural)]
pub struct FrameTiming {
    pub frames: u64,
    pub tick_total_us: u128,
    pub tick_max_us: u128,
    pub run_total_us: u128,
    pub run_max_us: u128,
    pub video_total_us: u128,
    pub video_max_us: u128,
    pub audio_total_us: u128,
    pub audio_max_us: u128,
}

/// No frame measured.
pub open spec fn no_frames() -> FrameTiming {
    FrameTiming {
        frames: 0,
        tick_total_us: 0,
        tick_max_us: 0,
        run_total_us: 0,
        run_max_us: 0,
        video_total_us: 0,
        video_max_us: 0,
        audio_total_us: 0,
        audio_max_us: 0,
    }
}

/// The figures with one more frame.
pub open spec fn with_frame(timing: FrameTiming, times: FrameTimes) -> FrameTiming {
    let limit = u128::MAX as int;
    FrameTiming {
        frames: clamped_to(timing.frames + 1, u64::MAX as int) as u64,
        tick_total_us: clamped_to(timing.tick_total_us + times.tick_us, limit) as u128,
        tick_max_us: larger(timing.tick_max_us, times.tick_us),
        run_total_us: clamped_to(timing.run_total_us + times.run_us, limit) as u128,
        run_max_us: larger(timing.run_max_us, times.run_us),
        video_total_us: clamped_to(timing.video_total_us + times.video_us, limit) as u128,
        video_max_us: larger(timing.video_max_us, times.video_us),
        audio_total_us: clamped_to(timing.audio_total_us + times.audio_us, limit) as u128,
        audio_max_us: larger(timing.audio_max_us, times.audio_us),
    }
}

/// A total shared out over so many; zero for none.
pub open spec fn shared(total: int, count: int) -> int {
    if count == 0 {
        0
    } else {
        total / count
    }
}

impl Default for FrameTiming {
    fn default() -> (timing: FrameTiming)
        ensures
            timing == no_frames(),
    {
        FrameTiming {
            frames: 0,
            tick_total_us: 0,
            tick_max_us: 0,
            run_total_us: 0,
            run_max_us: 0,
            video_total_us: 0,
            video_max_us: 0,
            audio_total_us: 0,
            audio_max_us: 0,
        }
    }
}

impl FrameTiming {
    /// Counts a frame.
    pub fn record(&mut self, times: FrameTimes)
        ensures
            *final(self) == with_frame(*old(self), times),
    {
        self.frames = count_up(self.frames, 1);
        self.tick_total_us = add_up(self.tick_total_us, times.tick_us);
        self.tick_max_us = maximum(self.tick_max_us, times.tick_us);
        self.run_total_us = add_up(self.run_total_us, times.run_us);
        self.run_max_us = maximum(self.run_max_us, times.run_us);
        self.video_total_us = add_up(self.video_total_us, times.video_us);
        self.video_max_us = maximum(self.video_max_us, times.video_us);
        self.audio_total_us = add_up(self.audio_total_us, times.audio_us);
        self.audio_max_us = maximum(self.audio_max_us, times.audio_us);
    }

    /// A total per frame.
    pub fn average(self, total: u128) -> (result: u128)
        ensures
            result == shared(total as int, self.frames as int),
    {
        if self.frames == 0 {
            0
        } else {
            total / self.frames as u128
        }
    }
}

/// How the host answered the wish for reports on its sound buffer.
pub open spec fn status_text(value: Option<bool>) -> Seq<char> {
    match value {
        Some(true) => "accepted"@,
        Some(false) => "rejected"@,
        None => "pending"@,
    }
}

/// How the report names an answer, or that there was none.
pub fn status(value: Option<bool>) -> (text: &'static str)
    ensures
        text@ == status_text(value),
{
    match value {
        Some(true) => "accepted",
        Some(false) => "rejected",
        None => "pending",
    }
}

/// A total per event.
pub fn average(total: u64, count: u64) -> (result: u64)
    ensures
        result == shared(total as int, count as int),
{
    if count == 0 {
        0
    } else {
        total / count
    }
}

/// The figures of a session.
#[derive(Debug)]
pub struct DiagnosticSession {
    /// Where the report is written; nowhere without a directory for it.
    pub path: Option<String>,
    pub content_name: String,
    pub enabled: bool,
    pub total: FrameTiming,
    pub recent: FrameTiming,
    pub audio_frames_requested: u64,
    pub audio_frames_accepted: u64,
    pub audio_short_writes: u64,
    pub audio_output_sample_rate_hz: u32,
    pub audio_buffer_status_callback_supported: Option<bool>,
    pub audio_buffer_status_callbacks: u64,
    pub audio_buffer_active_callbacks: u64,
    pub audio_buffer_occupancy_total: u64,
    pub audio_buffer_occupancy_min: Option<u32>,
    pub audio_buffer_occupancy_max: u32,
    pub audio_buffer_underrun_likely: u64,
    pub write_failed: bool,
}

/// A session in which nothing was counted yet.
pub open spec fn cleared(session: DiagnosticSession) -> DiagnosticSession {
    DiagnosticSession {
        total: no_frames(),
        recent: no_frames(),
        audio_frames_requested: 0,
        audio_frames_accepted: 0,
        audio_short_writes: 0,
        audio_buffer_status_callback_supported: None,
        audio_buffer_status_callbacks: 0,
        audio_buffer_active_callbacks: 0,
        audio_buffer_occupancy_total: 0,
        audio_buffer_occupancy_min: None,
        audio_buffer_occupancy_max: 0,
        audio_buffer_underrun_likely: 0,
        write_failed: false,
        ..session
    }
}

/// A session with one more frame. The recent figures begin anew after each interval.
pub open spec fn frame_recorded(
    session: DiagnosticSession,
    times: FrameTimes,
    requested: usize,
    accepted: usize,
) -> DiagnosticSession {
    let limit = u64::MAX as int;
    DiagnosticSession {
        total: with_frame(session.total, times),
        recent: with_frame(
            if session.recent.frames >= REPORT_INTERVAL_FRAMES {
                no_frames()
            } else {
                session.recent
            },
            times,
        ),
        audio_frames_requested: clamped_to(
            session.audio_frames_requested + requested,
            limit,
        ) as u64,
        audio_frames_accepted: clamped_to(session.audio_frames_accepted + accepted, limit) as u64,
        audio_short_writes: if accepted < requested {
            clamped_to(session.audio_short_writes + 1, limit) as u64
        } else {
            session.audio_short_writes
        },
        ..session
    }
}

/// A session with one more report on the host's sound buffer.
pub open spec fn buffer_recorded(
    session: DiagnosticSession,
    active: bool,
    occupancy: u32,
    underrun_likely: bool,
) -> DiagnosticSession {
    let limit = u64::MAX as int;
    let one = |flag: bool|
        if flag {
            1int
        } else {
            0int
        };
    DiagnosticSession {
        audio_buffer_status_callbacks: clamped_to(
            session.audio_buffer_status_callbacks + 1,
            limit,
        ) as u64,
        audio_buffer_active_callbacks: clamped_to(
            session.audio_buffer_active_callbacks + one(active),
            limit,
        ) as u64,
        audio_buffer_occupancy_total: clamped_to(
            session.audio_buffer_occupancy_total + occupancy,
            limit,
        ) as u64,
        audio_buffer_occupancy_min: match session.audio_buffer_occupancy_min {
            Some(current) if current <= occupancy => Some(current),
            _ => Some(occupancy),
        },
        audio_buffer_occupancy_max: if session.audio_buffer_occupancy_max >= occupancy {
            session.audio_buffer_occupancy_max
        } else {
            occupancy
        },
        audio_buffer_underrun_likely: clamped_to(
            session.audio_buffer_underrun_likely + one(underrun_likely),
            limit,
        ) as u64,
        ..session
    }
}

/// The name of a file, by its path.
pub open spec fn content_name_of(path: Seq<char>) -> Seq<char> {
    let parts = path_parts(path);
    if parts.len() == 0 || parts.last() == seq!['/'] || parts.last() == seq!['.'] || parts.last()
        == seq!['.', '.'] {
        "unknown.app"@
    } else {
        parts.last()
    }
}

/// Whether a session is a new one.
pub open spec fn is_new_session(
    session: DiagnosticSession,
    save_directory: Option<Seq<char>>,
    content_path: Seq<char>,
    sample_rate_hz: u32,
) -> bool {
    &&& match save_directory {
        Some(directory) => session.path matches Some(path) && path@ == joined(
            directory,
            report_file_name(),
        ),
        None => session.path is None,
    }
    &&& session.content_name@ == content_name_of(content_path)
    &&& !session.enabled
    &&& session.audio_output_sample_rate_hz == sample_rate_hz
    &&& session == cleared(session)
}

fn name_of_content(path: &str) -> (name: String)
    ensures
        name@ == content_name_of(path@),
{
    match last_part(path) {
        Some(part) => {
            let chars = part.as_slice();
            let root = chars.len() == 1 && chars[0] == '/';
            let here = chars.len() == 1 && chars[0] == '.';
            let parent = chars.len() == 2 && chars[0] == '.' && chars[1] == '.';
            proof {
                assert(root ==> part@ =~= seq!['/']);
                assert(here ==> part@ =~= seq!['.']);
                assert(parent ==> part@ =~= seq!['.', '.']);
            }
            if root || here || parent {
                "unknown.app".to_owned()
            } else {
                crate::paths::from_chars(chars)
            }
        },
        None => "unknown.app".to_owned(),
    }
}

// The report.

/// What the report says of the host.
#[derive(Debug)]
pub struct HostInfo {
    pub core_version: String,
    pub target_os: String,
    pub target_arch: String,
    pub pointer_width: u32,
}

/// A text with one more line.
pub open spec fn with_line(text: Seq<char>, key: Seq<char>, value: Seq<char>) -> Seq<char> {
    (text + key).push('=') + value.push('\n')
}

/// A number in decimal digits.
pub open spec fn number(value: int) -> Seq<char> {
    decimal(value as nat)
}

/// A truth value as the report writes it.
pub open spec fn flag(value: bool) -> Seq<char> {
    if value {
        "true"@
    } else {
        "false"@
    }
}

/// A word as eight hexadecimal digits.
pub open spec fn hex_word(value: u32) -> Seq<char> {
    let plain = digits(value as nat, 16, false);
    "0x"@ + (repeated('0', (8 - plain.len()) as nat) + plain)
}

fn push_line(text: &mut String, key: &str, value: &str)
    ensures
        final(text)@ == with_line(old(text)@, key@, value@),
{
    text.append(key);
    text.push('=');
    text.append(value);
    text.push('\n');
    assert(text@ =~= with_line(old(text)@, key@, value@));
}

fn push_number(text: &mut String, key: &str, value: u128)
    ensures
        final(text)@ == with_line(old(text)@, key@, number(value as int)),
{
    let mut digits = String::new();
    push_decimal(&mut digits, value);
    assert(digits@ =~= number(value as int));
    push_line(text, key, digits.as_str());
}

fn push_flag(text: &mut String, key: &str, value: bool)
    ensures
        final(text)@ == with_line(old(text)@, key@, flag(value)),
{
    push_line(
        text,
        key,
        if value {
            "true"
        } else {
            "false"
        },
    );
}

/// What the report says of the program.
#[verifier::opaque]
pub open spec fn host_lines(
    text: Seq<char>,
    host: HostInfo,
    content: Seq<char>,
    elapsed_ms: u128,
) -> Seq<char> {
    let text = with_line(text, "format_version"@, "7"@);
    let text = with_line(text, "core_version"@, host.core_version@);
    let text = with_line(text, "target_os"@, host.target_os@);
    let text = with_line(text, "target_arch"@, host.target_arch@);
    let text = with_line(text, "pointer_width"@, number(host.pointer_width as int));
    let text = with_line(text, "content"@, content);
    let text = with_line(text, "elapsed_ms"@, number(elapsed_ms as int));
    text
}

fn push_host(text: &mut String, host: &HostInfo, content: &str, elapsed_ms: u128)
    ensures
        final(text)@ == host_lines(old(text)@, *host, content@, elapsed_ms),
{
    proof {
        reveal(host_lines);
    }
    push_line(text, "format_version", "7");
    push_line(text, "core_version", host.core_version.as_str());
    push_line(text, "target_os", host.target_os.as_str());
    push_line(text, "target_arch", host.target_arch.as_str());
    push_number(text, "pointer_width", host.pointer_width as u128);
    push_line(text, "content", content);
    push_number(text, "elapsed_ms", elapsed_ms as u128);
}

/// What the report says of all frames.
#[verifier::opaque]
pub open spec fn total_timing_lines(text: Seq<char>, timing: FrameTiming) -> Seq<char> {
    let text = with_line(text, "frames"@, number(timing.frames as int));
    let text = with_line(
        text,
        "tick_average_us"@,
        number(shared(timing.tick_total_us as int, timing.frames as int)),
    );
    let text = with_line(text, "tick_max_us"@, number(timing.tick_max_us as int));
    let text = with_line(
        text,
        "run_average_us"@,
        number(shared(timing.run_total_us as int, timing.frames as int)),
    );
    let text = with_line(text, "run_max_us"@, number(timing.run_max_us as int));
    let text = with_line(
        text,
        "video_average_us"@,
        number(shared(timing.video_total_us as int, timing.frames as int)),
    );
    let text = with_line(text, "video_max_us"@, number(timing.video_max_us as int));
    let text = with_line(
        text,
        "audio_average_us"@,
        number(shared(timing.audio_total_us as int, timing.frames as int)),
    );
    let text = with_line(text, "audio_max_us"@, number(timing.audio_max_us as int));
    text
}

fn push_total_timing(text: &mut String, timing: FrameTiming)
    ensures
        final(text)@ == total_timing_lines(old(text)@, timing),
{
    proof {
        reveal(total_timing_lines);
    }
    push_number(text, "frames", timing.frames as u128);
    push_number(text, "tick_average_us", timing.average(timing.tick_total_us));
    push_number(text, "tick_max_us", timing.tick_max_us as u128);
    push_number(text, "run_average_us", timing.average(timing.run_total_us));
    push_number(text, "run_max_us", timing.run_max_us as u128);
    push_number(text, "video_average_us", timing.average(timing.video_total_us));
    push_number(text, "video_max_us", timing.video_max_us as u128);
    push_number(text, "audio_average_us", timing.average(timing.audio_total_us));
    push_number(text, "audio_max_us", timing.audio_max_us as u128);
}

/// What the report says of recent frames.
#[verifier::opaque]
pub open spec fn recent_timing_lines(text: Seq<char>, timing: FrameTiming) -> Seq<char> {
    let text = with_line(text, "recent_frames"@, number(timing.frames as int));
    let text = with_line(
        text,
        "recent_tick_average_us"@,
        number(shared(timing.tick_total_us as int, timing.frames as int)),
    );
    let text = with_line(text, "recent_tick_max_us"@, number(timing.tick_max_us as int));
    let text = with_line(
        text,
        "recent_run_average_us"@,
        number(shared(timing.run_total_us as int, timing.frames as int)),
    );
    let text = with_line(text, "recent_run_max_us"@, number(timing.run_max_us as int));
    let text = with_line(
        text,
        "recent_video_average_us"@,
        number(shared(timing.video_total_us as int, timing.frames as int)),
    );
    let text = with_line(text, "recent_video_max_us"@, number(timing.video_max_us as int));
    let text = with_line(
        text,
        "recent_audio_average_us"@,
        number(shared(timing.audio_total_us as int, timing.frames as int)),
    );
    let text = with_line(text, "recent_audio_max_us"@, number(timing.audio_max_us as int));
    text
}

fn push_recent_timing(text: &mut String, timing: FrameTiming)
    ensures
        final(text)@ == recent_timing_lines(old(text)@, timing),
{
    proof {
        reveal(recent_timing_lines);
    }
    push_number(text, "recent_frames", timing.frames as u128);
    push_number(text, "recent_tick_average_us", timing.average(timing.tick_total_us));
    push_number(text, "recent_tick_max_us", timing.tick_max_us as u128);
    push_number(text, "recent_run_average_us", timing.average(timing.run_total_us));
    push_number(text, "recent_run_max_us", timing.run_max_us as u128);
    push_number(text, "recent_video_average_us", timing.average(timing.video_total_us));
    push_number(text, "recent_video_max_us", timing.video_max_us as u128);
    push_number(text, "recent_audio_average_us", timing.average(timing.audio_total_us));
    push_number(text, "recent_audio_max_us", timing.audio_max_us as u128);
}

/// The least that the host's sound buffer held, as far as it was reported.
pub open spec fn least_occupancy(session: DiagnosticSession) -> u32 {
    match session.audio_buffer_occupancy_min {
        Some(occupancy) => occupancy,
        None => 0,
    }
}

/// What the report says of sound.
#[verifier::opaque]
pub open spec fn audio_lines(text: Seq<char>, session: DiagnosticSession) -> Seq<char> {
    let text = with_line(
        text,
        "audio_frames_requested"@,
        number(session.audio_frames_requested as int),
    );
    let text = with_line(
        text,
        "audio_frames_accepted"@,
        number(session.audio_frames_accepted as int),
    );
    let text = with_line(text, "audio_short_writes"@, number(session.audio_short_writes as int));
    let text = with_line(
        text,
        "audio_output_sample_rate_hz"@,
        number(session.audio_output_sample_rate_hz as int),
    );
    let text = with_line(text, "audio_minimum_latency_ms"@, "0"@);
    let text = with_line(text, "audio_latency_request_status"@, "not_requested"@);
    let text = with_line(
        text,
        "audio_buffer_status_callback_status"@,
        status_text(session.audio_buffer_status_callback_supported),
    );
    let text = with_line(
        text,
        "audio_buffer_status_callbacks"@,
        number(session.audio_buffer_status_callbacks as int),
    );
    let text = with_line(
        text,
        "audio_buffer_active_callbacks"@,
        number(session.audio_buffer_active_callbacks as int),
    );
    let text = with_line(
        text,
        "audio_buffer_occupancy_average_percent"@,
        number(
            shared(
                session.audio_buffer_occupancy_total as int,
                session.audio_buffer_status_callbacks as int,
            ),
        ),
    );
    let text = with_line(
        text,
        "audio_buffer_occupancy_min_percent"@,
        number(least_occupancy(session) as int),
    );
    let text = with_line(
        text,
        "audio_buffer_occupancy_max_percent"@,
        number(session.audio_buffer_occupancy_max as int),
    );
    let text = with_line(
        text,
        "audio_buffer_underrun_likely"@,
        number(session.audio_buffer_underrun_likely as int),
    );
    let text = with_line(text, "async_audio_callback_status"@, "unsupported"@);
    let text = with_line(text, "async_audio_enabled"@, "false"@);
    let text = with_line(text, "async_audio_state_changes"@, "0"@);
    let text = with_line(text, "async_audio_callback_calls"@, "0"@);
    let text = with_line(text, "async_audio_real_frames"@, "0"@);
    let text = with_line(text, "async_audio_output_frames_requested"@, "0"@);
    let text = with_line(text, "async_audio_output_frames_accepted"@, "0"@);
    let text = with_line(text, "async_audio_dropped_frames"@, "0"@);
    let text = with_line(text, "async_audio_max_queued_frames"@, "0"@);
    text
}

fn push_audio(text: &mut String, session: &DiagnosticSession)
    ensures
        final(text)@ == audio_lines(old(text)@, *session),
{
    proof {
        reveal(audio_lines);
    }
    push_number(text, "audio_frames_requested", session.audio_frames_requested as u128);
    push_number(text, "audio_frames_accepted", session.audio_frames_accepted as u128);
    push_number(text, "audio_short_writes", session.audio_short_writes as u128);
    push_number(text, "audio_output_sample_rate_hz", session.audio_output_sample_rate_hz as u128);
    push_line(text, "audio_minimum_latency_ms", "0");
    push_line(text, "audio_latency_request_status", "not_requested");
    push_line(
        text,
        "audio_buffer_status_callback_status",
        status(session.audio_buffer_status_callback_supported),
    );
    push_number(
        text,
        "audio_buffer_status_callbacks",
        session.audio_buffer_status_callbacks as u128,
    );
    push_number(
        text,
        "audio_buffer_active_callbacks",
        session.audio_buffer_active_callbacks as u128,
    );
    push_number(
        text,
        "audio_buffer_occupancy_average_percent",
        average(
            session.audio_buffer_occupancy_total,
            session.audio_buffer_status_callbacks,
        ) as u128,
    );
    push_number(
        text,
        "audio_buffer_occupancy_min_percent",
        match session.audio_buffer_occupancy_min {
            Some(occupancy) => occupancy as u128,
            None => 0,
        },
    );
    push_number(
        text,
        "audio_buffer_occupancy_max_percent",
        session.audio_buffer_occupancy_max as u128,
    );
    push_number(text, "audio_buffer_underrun_likely", session.audio_buffer_underrun_likely as u128);
    push_line(text, "async_audio_callback_status", "unsupported");
    push_line(text, "async_audio_enabled", "false");
    push_line(text, "async_audio_state_changes", "0");
    push_line(text, "async_audio_callback_calls", "0");
    push_line(text, "async_audio_real_frames", "0");
    push_line(text, "async_audio_output_frames_requested", "0");
    push_line(text, "async_audio_output_frames_accepted", "0");
    push_line(text, "async_audio_dropped_frames", "0");
    push_line(text, "async_audio_max_queued_frames", "0");
}

/// What the report says of native code.
#[verifier::opaque]
pub open spec fn jit_lines(text: Seq<char>, jit: JitDiagnostics) -> Seq<char> {
    let text = with_line(text, "jit_feature_available"@, flag(jit.feature_available));
    let text = with_line(text, "jit_enabled"@, flag(jit.enabled));
    let text = with_line(text, "jit_backend_available"@, flag(jit.backend_available));
    let text = with_line(text, "jit_tracked_blocks"@, number(jit.tracked_blocks as int));
    let text = with_line(text, "jit_compiled_blocks"@, number(jit.compiled_blocks as int));
    let text = with_line(text, "jit_failed_blocks"@, number(jit.failed_blocks as int));
    let text = with_line(text, "jit_execute_requests"@, number(jit.execute_requests as int));
    let text = with_line(text, "jit_native_executions"@, number(jit.native_executions as int));
    let text = with_line(text, "jit_native_instructions"@, number(jit.native_instructions as int));
    let text = with_line(
        text,
        "jit_interpreter_executions"@,
        number(jit.interpreter_executions as int),
    );
    let text = with_line(
        text,
        "jit_interpreter_instructions"@,
        number(jit.interpreter_instructions as int),
    );
    let text = with_line(
        text,
        "jit_compilation_attempts"@,
        number(jit.compilation_attempts as int),
    );
    let text = with_line(
        text,
        "jit_compilation_failures"@,
        number(jit.compilation_failures as int),
    );
    let text = with_line(
        text,
        "jit_compilation_total_us"@,
        number(jit.compilation_total_us as int),
    );
    let text = with_line(text, "jit_compilation_max_us"@, number(jit.compilation_max_us as int));
    let text = with_line(text, "jit_cold_fallbacks"@, number(jit.cold_fallbacks as int));
    let text = with_line(
        text,
        "jit_unavailable_fallbacks"@,
        number(jit.unavailable_fallbacks as int),
    );
    let text = with_line(
        text,
        "jit_cache_capacity_fallbacks"@,
        number(jit.cache_capacity_fallbacks as int),
    );
    let text = with_line(
        text,
        "jit_below_hot_threshold_fallbacks"@,
        number(jit.below_hot_threshold_fallbacks as int),
    );
    let text = with_line(
        text,
        "jit_compile_budget_fallbacks"@,
        number(jit.compile_budget_fallbacks as int),
    );
    let text = with_line(
        text,
        "jit_block_too_short_fallbacks"@,
        number(jit.block_too_short_fallbacks as int),
    );
    let text = with_line(
        text,
        "jit_unsupported_instruction_fallbacks"@,
        number(jit.unsupported_instruction_fallbacks as int),
    );
    let text = with_line(
        text,
        "jit_failed_block_fallbacks"@,
        number(jit.failed_block_fallbacks as int),
    );
    let text = with_line(
        text,
        "jit_instruction_limit_fallbacks"@,
        number(jit.instruction_limit_fallbacks as int),
    );
    let text = with_line(text, "jit_zero_exit_fallbacks"@, number(jit.zero_exit_fallbacks as int));
    let text = with_line(text, "jit_slow_memory_exits"@, number(jit.slow_memory_exits as int));
    let text = with_line(text, "jit_fast_cache_hits"@, number(jit.fast_cache_hits as int));
    let text = with_line(text, "jit_map_cache_hits"@, number(jit.map_cache_hits as int));
    let text = with_line(
        text,
        "jit_fast_cache_collisions"@,
        number(jit.fast_cache_collisions as int),
    );
    let text = with_line(
        text,
        "jit_failed_hotspot_count"@,
        number(jit.failed_hotspot_count as int),
    );
    text
}

fn push_jit(text: &mut String, jit: &JitDiagnostics)
    ensures
        final(text)@ == jit_lines(old(text)@, *jit),
{
    proof {
        reveal(jit_lines);
    }
    push_flag(text, "jit_feature_available", jit.feature_available);
    push_flag(text, "jit_enabled", jit.enabled);
    push_flag(text, "jit_backend_available", jit.backend_available);
    push_number(text, "jit_tracked_blocks", jit.tracked_blocks as u128);
    push_number(text, "jit_compiled_blocks", jit.compiled_blocks as u128);
    push_number(text, "jit_failed_blocks", jit.failed_blocks as u128);
    push_number(text, "jit_execute_requests", jit.execute_requests as u128);
    push_number(text, "jit_native_executions", jit.native_executions as u128);
    push_number(text, "jit_native_instructions", jit.native_instructions as u128);
    push_number(text, "jit_interpreter_executions", jit.interpreter_executions as u128);
    push_number(text, "jit_interpreter_instructions", jit.interpreter_instructions as u128);
    push_number(text, "jit_compilation_attempts", jit.compilation_attempts as u128);
    push_number(text, "jit_compilation_failures", jit.compilation_failures as u128);
    push_number(text, "jit_compilation_total_us", jit.compilation_total_us as u128);
    push_number(text, "jit_compilation_max_us", jit.compilation_max_us as u128);
    push_number(text, "jit_cold_fallbacks", jit.cold_fallbacks as u128);
    push_number(text, "jit_unavailable_fallbacks", jit.unavailable_fallbacks as u128);
    push_number(text, "jit_cache_capacity_fallbacks", jit.cache_capacity_fallbacks as u128);
    push_number(
        text,
        "jit_below_hot_threshold_fallbacks",
        jit.below_hot_threshold_fallbacks as u128,
    );
    push_number(text, "jit_compile_budget_fallbacks", jit.compile_budget_fallbacks as u128);
    push_number(text, "jit_block_too_short_fallbacks", jit.block_too_short_fallbacks as u128);
    push_number(
        text,
        "jit_unsupported_instruction_fallbacks",
        jit.unsupported_instruction_fallbacks as u128,
    );
    push_number(text, "jit_failed_block_fallbacks", jit.failed_block_fallbacks as u128);
    push_number(text, "jit_instruction_limit_fallbacks", jit.instruction_limit_fallbacks as u128);
    push_number(text, "jit_zero_exit_fallbacks", jit.zero_exit_fallbacks as u128);
    push_number(text, "jit_slow_memory_exits", jit.slow_memory_exits as u128);
    push_number(text, "jit_fast_cache_hits", jit.fast_cache_hits as u128);
    push_number(text, "jit_map_cache_hits", jit.map_cache_hits as u128);
    push_number(text, "jit_fast_cache_collisions", jit.fast_cache_collisions as u128);
    push_number(text, "jit_failed_hotspot_count", jit.failed_hotspot_count as u128);
}

/// What the report says of a block that cannot be compiled.
pub open spec fn hotspot_text(block: JitFailedBlockHotspot) -> Seq<char> {
    hex_word(block.start).push(',') + block.reason.text().push(',') + number(
        block.candidate_len as int,
    ).push(',') + hex_word(block.blocking_instruction).push(',') + number(block.fallbacks as int)
}

/// Name of the line for a block in the ranking.
pub open spec fn hotspot_key(index: int) -> Seq<char> {
    "jit_failed_hotspot_"@ + number(index)
}

/// What the report says of the first blocks that cannot be compiled.
pub open spec fn hotspot_lines(
    text: Seq<char>,
    blocks: Seq<JitFailedBlockHotspot>,
    count: int,
) -> Seq<char>
    decreases count,
{
    if count <= 0 {
        text
    } else {
        with_line(
            hotspot_lines(text, blocks, count - 1),
            hotspot_key(count - 1),
            hotspot_text(blocks[count - 1]),
        )
    }
}

/// The whole report.
pub open spec fn report_text(
    session: DiagnosticSession,
    jit: JitDiagnostics,
    host: HostInfo,
    elapsed_ms: u128,
) -> Seq<char> {
    let text = "DingooEmu performance diagnostics\n"@;
    let text = host_lines(text, host, session.content_name@, elapsed_ms);
    let text = total_timing_lines(text, session.total);
    let text = recent_timing_lines(text, session.recent);
    let text = audio_lines(text, session);
    let text = jit_lines(text, jit);
    hotspot_lines(text, jit.failed_hotspots@, jit.failed_hotspot_count as int)
}

fn push_hex_word(text: &mut String, value: u32)
    ensures
        final(text)@ == old(text)@ + hex_word(value),
{
    let mut plain = String::new();
    push_digits(&mut plain, value as u128, 16, false);
    assert(plain@ =~= digits(value as nat, 16, false));
    proof {
        lemma_word_digits(value);
    }
    text.append("0x");
    let length: usize = plain.as_str().unicode_len();
    push_repeated(text, '0', 8 - length);
    text.append(plain.as_str());
    assert(text@ =~= old(text)@ + hex_word(value));
}

/// A word has at most eight hexadecimal digits.
pub proof fn lemma_word_digits(value: u32)
    ensures
        1 <= digits(value as nat, 16, false).len() <= 8,
{
    reveal_with_fuel(digits, 8);
}

fn push_hotspot(text: &mut String, index: usize, block: &JitFailedBlockHotspot)
    ensures
        final(text)@ == with_line(old(text)@, hotspot_key(index as int), hotspot_text(*block)),
{
    let mut key = "jit_failed_hotspot_".to_owned();
    push_decimal(&mut key, index as u128);
    let mut value = String::new();
    push_hex_word(&mut value, block.start);
    value.push(',');
    value.append(block.reason.as_str());
    value.push(',');
    push_decimal(&mut value, block.candidate_len as u128);
    value.push(',');
    push_hex_word(&mut value, block.blocking_instruction);
    value.push(',');
    push_decimal(&mut value, block.fallbacks as u128);
    assert(value@ =~= hotspot_text(*block));
    push_line(text, key.as_str(), value.as_str());
}

impl DiagnosticSession {
    /// A session for an application. Nothing is collected yet.
    pub fn new(save_directory: Option<&str>, content_path: &str, sample_rate_hz: u32) -> (session:
        DiagnosticSession)
        ensures
            is_new_session(
                session,
                match save_directory {
                    Some(directory) => Some(directory@),
                    None => None,
                },
                content_path@,
                sample_rate_hz,
            ),
    {
        DiagnosticSession {
            path: match save_directory {
                Some(directory) => Some(join_path(directory, "dingooemu-diagnostic.txt")),
                None => None,
            },
            content_name: name_of_content(content_path),
            enabled: false,
            total: FrameTiming::default(),
            recent: FrameTiming::default(),
            audio_frames_requested: 0,
            audio_frames_accepted: 0,
            audio_short_writes: 0,
            audio_output_sample_rate_hz: sample_rate_hz,
            audio_buffer_status_callback_supported: None,
            audio_buffer_status_callbacks: 0,
            audio_buffer_active_callbacks: 0,
            audio_buffer_occupancy_total: 0,
            audio_buffer_occupancy_min: None,
            audio_buffer_occupancy_max: 0,
            audio_buffer_underrun_likely: 0,
            write_failed: false,
        }
    }

    /// Starts to count anew.
    pub fn reset(&mut self)
        ensures
            *final(self) == cleared(*old(self)),
    {
        self.total = FrameTiming::default();
        self.recent = FrameTiming::default();
        self.audio_frames_requested = 0;
        self.audio_frames_accepted = 0;
        self.audio_short_writes = 0;
        self.audio_buffer_status_callback_supported = None;
        self.audio_buffer_status_callbacks = 0;
        self.audio_buffer_active_callbacks = 0;
        self.audio_buffer_occupancy_total = 0;
        self.audio_buffer_occupancy_min = None;
        self.audio_buffer_occupancy_max = 0;
        self.audio_buffer_underrun_likely = 0;
        self.write_failed = false;
    }

    /// Counts a frame.
    pub fn record_frame(&mut self, times: FrameTimes, requested: usize, accepted: usize)
        ensures
            *final(self) == frame_recorded(*old(self), times, requested, accepted),
    {
        if self.recent.frames >= REPORT_INTERVAL_FRAMES {
            self.recent = FrameTiming::default();
        }
        self.total.record(times);
        self.recent.record(times);
        self.audio_frames_requested = count_up(self.audio_frames_requested, requested as u64);
        self.audio_frames_accepted = count_up(self.audio_frames_accepted, accepted as u64);
        if accepted < requested {
            self.audio_short_writes = count_up(self.audio_short_writes, 1);
        }
    }

    /// The report.
    pub fn report(&self, jit: &JitDiagnostics, host: &HostInfo, elapsed_ms: u128) -> (text: String)
        requires
            jit.failed_hotspot_count <= JIT_FAILED_HOTSPOT_LIMIT,
        ensures
            text@ == report_text(*self, *jit, *host, elapsed_ms),
    {
        let mut text = "DingooEmu performance diagnostics\n".to_owned();
        push_host(&mut text, host, self.content_name.as_str(), elapsed_ms);
        push_total_timing(&mut text, self.total);
        push_recent_timing(&mut text, self.recent);
        push_audio(&mut text, self);
        push_jit(&mut text, jit);
        let ghost start = text@;
        let mut index: usize = 0;
        while index < jit.failed_hotspot_count
            invariant
                index <= jit.failed_hotspot_count <= JIT_FAILED_HOTSPOT_LIMIT,
                text@ == hotspot_lines(start, jit.failed_hotspots@, index as int),
            decreases jit.failed_hotspot_count - index,
        {
            push_hotspot(&mut text, index, &jit.failed_hotspots[index]);
            index = index + 1;
        }
        text
    }

    /// Notes that the report could not be written. Says whether that is news.
    pub fn report_write_error(&mut self) -> (news: bool)
        ensures
            news == !old(self).write_failed,
            *final(self) == (DiagnosticSession { write_failed: true, ..*old(self) }),
    {
        let news = !self.write_failed;
        self.write_failed = true;
        news
    }
}

// Collecting figures.

/// What is collected, if anything.
#[derive(Debug)]
pub struct Diagnostics {
    pub enabled: bool,
    pub session: Option<DiagnosticSession>,
}

/// What switching the diagnostics asks of the host.
#[derive(Clone, Copy, Debug, PartialEq, Eq, Structural)]
pub enum ReportRequest {
    Nothing,
    /// The report is to be written.
    Write,
    /// There is no directory for the report.
    NoDirectory,
}

impl Diagnostics {
    /// Diagnostics that are off.
    pub fn new() -> (diagnostics: Diagnostics)
        ensures
            !diagnostics.enabled,
            diagnostics.session is None,
    {
        Diagnostics { enabled: false, session: None }
    }
}

/// Prepares a session for an application.
pub fn configure(
    diagnostics: &mut Diagnostics,
    save_directory: Option<&str>,
    content_path: &str,
    sample_rate_hz: u32,
)
    ensures
        !final(diagnostics).enabled,
        final(diagnostics).session is Some,
        is_new_session(
            final(diagnostics).session->0,
            match save_directory {
                Some(directory) => Some(directory@),
                None => None,
            },
            content_path@,
            sample_rate_hz,
        ),
{
    diagnostics.enabled = false;
    diagnostics.session = Some(
        DiagnosticSession::new(save_directory, content_path, sample_rate_hz),
    );
}

/// Whether figures are collected.
pub fn is_enabled(diagnostics: &Diagnostics) -> (enabled: bool)
    ensures
        enabled == diagnostics.enabled,
{
    diagnostics.enabled
}

/// Notes whether the host reports on its sound buffer.
pub fn set_audio_buffer_status_callback_status(diagnostics: &mut Diagnostics, supported: bool)
    ensures
        *final(diagnostics) == (Diagnostics {
            session: match old(diagnostics).session {
                Some(session) => Some(
                    DiagnosticSession {
                        audio_buffer_status_callback_supported: Some(supported),
                        ..session
                    },
                ),
                None => None,
            },
            ..*old(diagnostics)
        }),
{
    if let Some(mut session) = diagnostics.session.take() {
        session.audio_buffer_status_callback_supported = Some(supported);
        diagnostics.session = Some(session);
    }
}

/// Notes what the host reports on its sound buffer.
pub fn record_audio_buffer_status(
    diagnostics: &mut Diagnostics,
    active: bool,
    occupancy: u32,
    underrun_likely: bool,
)
    ensures
        *final(diagnostics) == (Diagnostics {
            session: match old(diagnostics).session {
                Some(session) => Some(
                    if old(diagnostics).enabled {
                        buffer_recorded(session, active, occupancy, underrun_likely)
                    } else {
                        session
                    },
                ),
                None => None,
            },
            ..*old(diagnostics)
        }),
{
    if !is_enabled(diagnostics) {
        return ;
    }
    if let Some(mut session) = diagnostics.session.take() {
        session.audio_buffer_status_callbacks = count_up(session.audio_buffer_status_callbacks, 1);
        session.audio_buffer_active_callbacks = count_up(
            session.audio_buffer_active_callbacks,
            if active {
                1
            } else {
                0
            },
        );
        session.audio_buffer_occupancy_total = count_up(
            session.audio_buffer_occupancy_total,
            occupancy as u64,
        );
        session.audio_buffer_occupancy_min = match session.audio_buffer_occupancy_min {
            Some(current) => if current <= occupancy {
                Some(current)
            } else {
                Some(occupancy)
            },
            None => Some(occupancy),
        };
        if session.audio_buffer_occupancy_max < occupancy {
            session.audio_buffer_occupancy_max = occupancy;
        }
        session.audio_buffer_underrun_likely = count_up(
            session.audio_buffer_underrun_likely,
            if underrun_likely {
                1
            } else {
                0
            },
        );
        diagnostics.session = Some(session);
    }
}

/// What switching does. Without a session or, for a start, a place for the report,
/// nothing is collected.
pub open spec fn switched(
    before: Diagnostics,
    after: Diagnostics,
    enabled: bool,
    request: ReportRequest,
) -> bool {
    match before.session {
        None => {
            &&& request == ReportRequest::Nothing
            &&& after == (Diagnostics { enabled: false, ..before })
        },
        Some(session) => if enabled == session.enabled {
            request == ReportRequest::Nothing && after == before
        } else if enabled && session.path is None {
            &&& request == ReportRequest::NoDirectory
            &&& after == (Diagnostics { enabled: false, ..before })
        } else {
            &&& request == ReportRequest::Write
            &&& after == (Diagnostics {
                enabled,
                session: Some(
                    if enabled {
                        DiagnosticSession { enabled: true, ..cleared(session) }
                    } else {
                        DiagnosticSession { enabled: false, ..session }
                    },
                ),
            })
        },
    }
}

/// Starts or stops collecting figures.
pub fn set_enabled(diagnostics: &mut Diagnostics, enabled: bool) -> (request: ReportRequest)
    ensures
        switched(*old(diagnostics), *final(diagnostics), enabled, request),
{
    match diagnostics.session.take() {
        None => {
            diagnostics.enabled = false;
            ReportRequest::Nothing
        },
        Some(mut session) => {
            if enabled == session.enabled {
                diagnostics.session = Some(session);
                return ReportRequest::Nothing;
            }
            if enabled {
                if session.path.is_none() {
                    diagnostics.enabled = false;
                    diagnostics.session = Some(session);
                    return ReportRequest::NoDirectory;
                }
                session.reset();
            }
            session.enabled = enabled;
            diagnostics.enabled = enabled;
            diagnostics.session = Some(session);
            ReportRequest::Write
        },
    }
}

/// The time at which a measurement starts, where anything is measured.
pub fn frame_timer(diagnostics: &Diagnostics, now: u128) -> (start: Option<u128>)
    ensures
        start == if diagnostics.enabled {
            Some(now)
        } else {
            None
        },
{
    if is_enabled(diagnostics) {
        Some(now)
    } else {
        None
    }
}

/// Counts a frame of an enabled session. Says whether the report is to be written.
pub fn record_frame(
    diagnostics: &mut Diagnostics,
    times: FrameTimes,
    audio_frames_requested: usize,
    audio_frames_accepted: usize,
) -> (report: bool)
    ensures
        match old(diagnostics).session {
            Some(session) if session.enabled => {
                let after = frame_recorded(
                    session,
                    times,
                    audio_frames_requested,
                    audio_frames_accepted,
                );
                &&& *final(diagnostics) == (Diagnostics {
                    session: Some(after),
                    ..*old(diagnostics)
                })
                &&& report == (after.total.frames % REPORT_INTERVAL_FRAMES == 0)
            },
            _ => !report && *final(diagnostics) == *old(diagnostics),
        },
{
    match diagnostics.session.take() {
        None => false,
        Some(mut session) => {
            if !session.enabled {
                diagnostics.session = Some(session);
                return false;
            }
            session.record_frame(times, audio_frames_requested, audio_frames_accepted);
            let report = session.total.frames % REPORT_INTERVAL_FRAMES == 0;
            diagnostics.session = Some(session);
            report
        },
    }
}

/// Ends a session. Returns it where its report is to be written.
pub fn finish(diagnostics: &mut Diagnostics) -> (session: Option<DiagnosticSession>)
    ensures
        !final(diagnostics).enabled,
        final(diagnostics).session is None,
        session == match old(diagnostics).session {
            Some(session) if session.enabled => Some(session),
            _ => None,
        },
{
    diagnostics.enabled = false;
    match diagnostics.session.take() {
        Some(session) => if session.enabled {
            Some(session)
        } else {
            None
        },
        None => None,
    }
}

/// The recent figures are of one interval at most, whatever was recorded.
pub proof fn law_recent_figures_are_recent(
    session: DiagnosticSession,
    times: FrameTimes,
    requested: usize,
    accepted: usize,
)
    ensures
        1 <= frame_recorded(session, times, requested, accepted).recent.frames
            <= REPORT_INTERVAL_FRAMES,
{
}

/// What was recorded of the host's sound buffer lies between the extremes.
pub proof fn law_occupancy_lies_between_extremes(
    session: DiagnosticSession,
    active: bool,
    occupancy: u32,
    underrun_likely: bool,
)
    ensures
        ({
            let after = buffer_recorded(session, active, occupancy, underrun_likely);
            &&& after.audio_buffer_occupancy_min is Some
            &&& after.audio_buffer_occupancy_min->0 <= occupancy
                <= after.audio_buffer_occupancy_max
        }),
{
}

} // verus!
