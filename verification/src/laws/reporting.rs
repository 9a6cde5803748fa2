//! What the report on performance says.

use crate::diagnostics::{
    audio_lines, flag, hex_word, host_lines, hotspot_key, hotspot_lines, hotspot_text, jit_lines,
    least_occupancy, number, recent_timing_lines, report_text, shared, status_text,
    total_timing_lines, with_line, DiagnosticSession, FrameTiming, HostInfo,
};
use crate::jit::engine::{JitDiagnostics, JitFailedBlockHotspot};
use crate::laws::formatting::{are_digits, law_digits_read_back, read_digits};
use crate::laws::keeping::{law_averages, law_words_in_reports};
use vstd::prelude::*;

verus! {

/// Whether a text ends with the end of a line.
pub open spec fn is_ended(text: Seq<char>) -> bool {
    text.len() > 0 && text.last() == '\n'
}

/// A line with a key and a value.
pub open spec fn line(key: Seq<char>, value: Seq<char>) -> Seq<char> {
    key + seq!['='] + value + seq!['\n']
}

/// Whether one of the lines of a text gives a value under a key.
#[verifier::opaque]
pub open spec fn says(text: Seq<char>, key: Seq<char>, value: Seq<char>) -> bool {
    exists|front: Seq<char>, back: Seq<char>|
        #[trigger] is_ended(front) && text == #[trigger] (front + line(key, value) + back)
}

/// Whether one of the lines of a text gives a number under a key, in decimal digits.
pub open spec fn says_number(text: Seq<char>, key: Seq<char>, value: int) -> bool {
    exists|written: Seq<char>|
        {
            &&& #[trigger] says(text, key, written)
            &&& written.len() > 0 && are_digits(written, 10, false)
            &&& read_digits(written, 10) == value
        }
}

/// Whether one of the lines of a text gives an average under a key: the whole number of
/// times that the count goes into the total.
pub open spec fn says_average(text: Seq<char>, key: Seq<char>, total: int, count: int) -> bool {
    exists|average: int|
        {
            &&& #[trigger] says_number(text, key, average)
            &&& count > 0 ==> average * count <= total < (average + 1) * count
            &&& count == 0 ==> average == 0
        }
}

proof fn lemma_line(text: Seq<char>, key: Seq<char>, value: Seq<char>)
    requires
        is_ended(text),
    ensures
        is_ended(with_line(text, key, value)),
        says(with_line(text, key, value), key, value),
        forall|other: Seq<char>, known: Seq<char>|
            says(text, other, known) ==> #[trigger] says(
                with_line(text, key, value),
                other,
                known,
            ),
{
    reveal(says);
    let after = with_line(text, key, value);
    assert(after =~= text + line(key, value) + Seq::<char>::empty());
    assert(after.last() == '\n');
    assert forall|other: Seq<char>, known: Seq<char>| says(text, other, known) implies #[trigger] says(
        after,
        other,
        known,
    ) by {
        let (front, back) = choose|front: Seq<char>, back: Seq<char>|
            #[trigger] is_ended(front) && text == #[trigger] (front + line(other, known) + back);
        assert(after =~= front + line(other, known) + (back + line(key, value)));
    }
}

proof fn lemma_number(text: Seq<char>, key: Seq<char>, value: int)
    requires
        says(text, key, number(value)),
        value >= 0,
    ensures
        says_number(text, key, value),
{
    law_digits_read_back(value as nat, 10, false);
}

proof fn lemma_average(text: Seq<char>, key: Seq<char>, total: int, count: int)
    requires
        says(text, key, number(shared(total, count))),
        total >= 0,
        count >= 0,
    ensures
        says_average(text, key, total, count),
{
    if count > 0 {
        law_averages(total, count);
        assert(shared(total, count) >= 0) by (nonlinear_arith)
            requires
                total >= 0,
                count > 0,
                shared(total, count) == total / count,
        ;
    }
    lemma_number(text, key, shared(total, count));
}

/// Whether what one text says is said by another.
pub open spec fn says_all_of(text: Seq<char>, earlier: Seq<char>) -> bool {
    forall|key: Seq<char>, value: Seq<char>|
        says(earlier, key, value) ==> #[trigger] says(text, key, value)
}

proof fn lemma_host_lines(text: Seq<char>, host: HostInfo, content: Seq<char>, elapsed_ms: u128)
    requires
        is_ended(text),
    ensures
        is_ended(host_lines(text, host, content, elapsed_ms)),
        says_all_of(host_lines(text, host, content, elapsed_ms), text),
        says(host_lines(text, host, content, elapsed_ms), "format_version"@, "7"@),
        says(host_lines(text, host, content, elapsed_ms), "core_version"@, host.core_version@),
        says(host_lines(text, host, content, elapsed_ms), "target_os"@, host.target_os@),
        says(host_lines(text, host, content, elapsed_ms), "target_arch"@, host.target_arch@),
        says(
            host_lines(text, host, content, elapsed_ms),
            "pointer_width"@,
            number(host.pointer_width as int),
        ),
        says(host_lines(text, host, content, elapsed_ms), "content"@, content),
        says(host_lines(text, host, content, elapsed_ms), "elapsed_ms"@, number(elapsed_ms as int)),
{
    reveal(host_lines);
    let t0 = text;
    lemma_line(t0, "format_version"@, "7"@);
    let t1 = with_line(t0, "format_version"@, "7"@);
    lemma_line(t1, "core_version"@, host.core_version@);
    let t2 = with_line(t1, "core_version"@, host.core_version@);
    lemma_line(t2, "target_os"@, host.target_os@);
    let t3 = with_line(t2, "target_os"@, host.target_os@);
    lemma_line(t3, "target_arch"@, host.target_arch@);
    let t4 = with_line(t3, "target_arch"@, host.target_arch@);
    lemma_line(t4, "pointer_width"@, number(host.pointer_width as int));
    let t5 = with_line(t4, "pointer_width"@, number(host.pointer_width as int));
    lemma_line(t5, "content"@, content);
    let t6 = with_line(t5, "content"@, content);
    lemma_line(t6, "elapsed_ms"@, number(elapsed_ms as int));
    let t7 = with_line(t6, "elapsed_ms"@, number(elapsed_ms as int));
}

proof fn lemma_total_timing_lines(text: Seq<char>, timing: FrameTiming)
    requires
        is_ended(text),
    ensures
        is_ended(total_timing_lines(text, timing)),
        says_all_of(total_timing_lines(text, timing), text),
        says(total_timing_lines(text, timing), "frames"@, number(timing.frames as int)),
        says(
            total_timing_lines(text, timing),
            "tick_average_us"@,
            number(shared(timing.tick_total_us as int, timing.frames as int)),
        ),
        says(total_timing_lines(text, timing), "tick_max_us"@, number(timing.tick_max_us as int)),
        says(
            total_timing_lines(text, timing),
            "run_average_us"@,
            number(shared(timing.run_total_us as int, timing.frames as int)),
        ),
        says(total_timing_lines(text, timing), "run_max_us"@, number(timing.run_max_us as int)),
        says(
            total_timing_lines(text, timing),
            "video_average_us"@,
            number(shared(timing.video_total_us as int, timing.frames as int)),
        ),
        says(total_timing_lines(text, timing), "video_max_us"@, number(timing.video_max_us as int)),
        says(
            total_timing_lines(text, timing),
            "audio_average_us"@,
            number(shared(timing.audio_total_us as int, timing.frames as int)),
        ),
        says(total_timing_lines(text, timing), "audio_max_us"@, number(timing.audio_max_us as int)),
{
    reveal(total_timing_lines);
    let t0 = text;
    lemma_line(t0, "frames"@, number(timing.frames as int));
    let t1 = with_line(t0, "frames"@, number(timing.frames as int));
    lemma_line(
        t1,
        "tick_average_us"@,
        number(shared(timing.tick_total_us as int, timing.frames as int)),
    );
    let t2 = with_line(
        t1,
        "tick_average_us"@,
        number(shared(timing.tick_total_us as int, timing.frames as int)),
    );
    lemma_line(t2, "tick_max_us"@, number(timing.tick_max_us as int));
    let t3 = with_line(t2, "tick_max_us"@, number(timing.tick_max_us as int));
    lemma_line(
        t3,
        "run_average_us"@,
        number(shared(timing.run_total_us as int, timing.frames as int)),
    );
    let t4 = with_line(
        t3,
        "run_average_us"@,
        number(shared(timing.run_total_us as int, timing.frames as int)),
    );
    lemma_line(t4, "run_max_us"@, number(timing.run_max_us as int));
    let t5 = with_line(t4, "run_max_us"@, number(timing.run_max_us as int));
    lemma_line(
        t5,
        "video_average_us"@,
        number(shared(timing.video_total_us as int, timing.frames as int)),
    );
    let t6 = with_line(
        t5,
        "video_average_us"@,
        number(shared(timing.video_total_us as int, timing.frames as int)),
    );
    lemma_line(t6, "video_max_us"@, number(timing.video_max_us as int));
    let t7 = with_line(t6, "video_max_us"@, number(timing.video_max_us as int));
    lemma_line(
        t7,
        "audio_average_us"@,
        number(shared(timing.audio_total_us as int, timing.frames as int)),
    );
    let t8 = with_line(
        t7,
        "audio_average_us"@,
        number(shared(timing.audio_total_us as int, timing.frames as int)),
    );
    lemma_line(t8, "audio_max_us"@, number(timing.audio_max_us as int));
    let t9 = with_line(t8, "audio_max_us"@, number(timing.audio_max_us as int));
}

proof fn lemma_recent_timing_lines(text: Seq<char>, timing: FrameTiming)
    requires
        is_ended(text),
    ensures
        is_ended(recent_timing_lines(text, timing)),
        says_all_of(recent_timing_lines(text, timing), text),
        says(recent_timing_lines(text, timing), "recent_frames"@, number(timing.frames as int)),
        says(
            recent_timing_lines(text, timing),
            "recent_tick_average_us"@,
            number(shared(timing.tick_total_us as int, timing.frames as int)),
        ),
        says(
            recent_timing_lines(text, timing),
            "recent_tick_max_us"@,
            number(timing.tick_max_us as int),
        ),
        says(
            recent_timing_lines(text, timing),
            "recent_run_average_us"@,
            number(shared(timing.run_total_us as int, timing.frames as int)),
        ),
        says(
            recent_timing_lines(text, timing),
            "recent_run_max_us"@,
            number(timing.run_max_us as int),
        ),
        says(
            recent_timing_lines(text, timing),
            "recent_video_average_us"@,
            number(shared(timing.video_total_us as int, timing.frames as int)),
        ),
        says(
            recent_timing_lines(text, timing),
            "recent_video_max_us"@,
            number(timing.video_max_us as int),
        ),
        says(
            recent_timing_lines(text, timing),
            "recent_audio_average_us"@,
            number(shared(timing.audio_total_us as int, timing.frames as int)),
        ),
        says(
            recent_timing_lines(text, timing),
            "recent_audio_max_us"@,
            number(timing.audio_max_us as int),
        ),
{
    reveal(recent_timing_lines);
    let t0 = text;
    lemma_line(t0, "recent_frames"@, number(timing.frames as int));
    let t1 = with_line(t0, "recent_frames"@, number(timing.frames as int));
    lemma_line(
        t1,
        "recent_tick_average_us"@,
        number(shared(timing.tick_total_us as int, timing.frames as int)),
    );
    let t2 = with_line(
        t1,
        "recent_tick_average_us"@,
        number(shared(timing.tick_total_us as int, timing.frames as int)),
    );
    lemma_line(t2, "recent_tick_max_us"@, number(timing.tick_max_us as int));
    let t3 = with_line(t2, "recent_tick_max_us"@, number(timing.tick_max_us as int));
    lemma_line(
        t3,
        "recent_run_average_us"@,
        number(shared(timing.run_total_us as int, timing.frames as int)),
    );
    let t4 = with_line(
        t3,
        "recent_run_average_us"@,
        number(shared(timing.run_total_us as int, timing.frames as int)),
    );
    lemma_line(t4, "recent_run_max_us"@, number(timing.run_max_us as int));
    let t5 = with_line(t4, "recent_run_max_us"@, number(timing.run_max_us as int));
    lemma_line(
        t5,
        "recent_video_average_us"@,
        number(shared(timing.video_total_us as int, timing.frames as int)),
    );
    let t6 = with_line(
        t5,
        "recent_video_average_us"@,
        number(shared(timing.video_total_us as int, timing.frames as int)),
    );
    lemma_line(t6, "recent_video_max_us"@, number(timing.video_max_us as int));
    let t7 = with_line(t6, "recent_video_max_us"@, number(timing.video_max_us as int));
    lemma_line(
        t7,
        "recent_audio_average_us"@,
        number(shared(timing.audio_total_us as int, timing.frames as int)),
    );
    let t8 = with_line(
        t7,
        "recent_audio_average_us"@,
        number(shared(timing.audio_total_us as int, timing.frames as int)),
    );
    lemma_line(t8, "recent_audio_max_us"@, number(timing.audio_max_us as int));
    let t9 = with_line(t8, "recent_audio_max_us"@, number(timing.audio_max_us as int));
}

proof fn lemma_audio_lines(text: Seq<char>, session: DiagnosticSession)
    requires
        is_ended(text),
    ensures
        is_ended(audio_lines(text, session)),
        says_all_of(audio_lines(text, session), text),
        says(
            audio_lines(text, session),
            "audio_frames_requested"@,
            number(session.audio_frames_requested as int),
        ),
        says(
            audio_lines(text, session),
            "audio_frames_accepted"@,
            number(session.audio_frames_accepted as int),
        ),
        says(
            audio_lines(text, session),
            "audio_short_writes"@,
            number(session.audio_short_writes as int),
        ),
        says(
            audio_lines(text, session),
            "audio_output_sample_rate_hz"@,
            number(session.audio_output_sample_rate_hz as int),
        ),
        says(audio_lines(text, session), "audio_minimum_latency_ms"@, "0"@),
        says(audio_lines(text, session), "audio_latency_request_status"@, "not_requested"@),
        says(
            audio_lines(text, session),
            "audio_buffer_status_callback_status"@,
            status_text(session.audio_buffer_status_callback_supported),
        ),
        says(
            audio_lines(text, session),
            "audio_buffer_status_callbacks"@,
            number(session.audio_buffer_status_callbacks as int),
        ),
        says(
            audio_lines(text, session),
            "audio_buffer_active_callbacks"@,
            number(session.audio_buffer_active_callbacks as int),
        ),
        says(
            audio_lines(text, session),
            "audio_buffer_occupancy_average_percent"@,
            number(
                shared(
                    session.audio_buffer_occupancy_total as int,
                    session.audio_buffer_status_callbacks as int,
                ),
            ),
        ),
        says(
            audio_lines(text, session),
            "audio_buffer_occupancy_min_percent"@,
            number(least_occupancy(session) as int),
        ),
        says(
            audio_lines(text, session),
            "audio_buffer_occupancy_max_percent"@,
            number(session.audio_buffer_occupancy_max as int),
        ),
        says(
            audio_lines(text, session),
            "audio_buffer_underrun_likely"@,
            number(session.audio_buffer_underrun_likely as int),
        ),
        says(audio_lines(text, session), "async_audio_callback_status"@, "unsupported"@),
        says(audio_lines(text, session), "async_audio_enabled"@, "false"@),
        says(audio_lines(text, session), "async_audio_state_changes"@, "0"@),
        says(audio_lines(text, session), "async_audio_callback_calls"@, "0"@),
        says(audio_lines(text, session), "async_audio_real_frames"@, "0"@),
        says(audio_lines(text, session), "async_audio_output_frames_requested"@, "0"@),
        says(audio_lines(text, session), "async_audio_output_frames_accepted"@, "0"@),
        says(audio_lines(text, session), "async_audio_dropped_frames"@, "0"@),
        says(audio_lines(text, session), "async_audio_max_queued_frames"@, "0"@),
{
    reveal(audio_lines);
    let t0 = text;
    lemma_line(t0, "audio_frames_requested"@, number(session.audio_frames_requested as int));
    let t1 = with_line(
        t0,
        "audio_frames_requested"@,
        number(session.audio_frames_requested as int),
    );
    lemma_line(t1, "audio_frames_accepted"@, number(session.audio_frames_accepted as int));
    let t2 = with_line(t1, "audio_frames_accepted"@, number(session.audio_frames_accepted as int));
    lemma_line(t2, "audio_short_writes"@, number(session.audio_short_writes as int));
    let t3 = with_line(t2, "audio_short_writes"@, number(session.audio_short_writes as int));
    lemma_line(
        t3,
        "audio_output_sample_rate_hz"@,
        number(session.audio_output_sample_rate_hz as int),
    );
    let t4 = with_line(
        t3,
        "audio_output_sample_rate_hz"@,
        number(session.audio_output_sample_rate_hz as int),
    );
    lemma_line(t4, "audio_minimum_latency_ms"@, "0"@);
    let t5 = with_line(t4, "audio_minimum_latency_ms"@, "0"@);
    lemma_line(t5, "audio_latency_request_status"@, "not_requested"@);
    let t6 = with_line(t5, "audio_latency_request_status"@, "not_requested"@);
    lemma_line(
        t6,
        "audio_buffer_status_callback_status"@,
        status_text(session.audio_buffer_status_callback_supported),
    );
    let t7 = with_line(
        t6,
        "audio_buffer_status_callback_status"@,
        status_text(session.audio_buffer_status_callback_supported),
    );
    lemma_line(
        t7,
        "audio_buffer_status_callbacks"@,
        number(session.audio_buffer_status_callbacks as int),
    );
    let t8 = with_line(
        t7,
        "audio_buffer_status_callbacks"@,
        number(session.audio_buffer_status_callbacks as int),
    );
    lemma_line(
        t8,
        "audio_buffer_active_callbacks"@,
        number(session.audio_buffer_active_callbacks as int),
    );
    let t9 = with_line(
        t8,
        "audio_buffer_active_callbacks"@,
        number(session.audio_buffer_active_callbacks as int),
    );
    lemma_line(
        t9,
        "audio_buffer_occupancy_average_percent"@,
        number(
            shared(
                session.audio_buffer_occupancy_total as int,
                session.audio_buffer_status_callbacks as int,
            ),
        ),
    );
    let t10 = with_line(
        t9,
        "audio_buffer_occupancy_average_percent"@,
        number(
            shared(
                session.audio_buffer_occupancy_total as int,
                session.audio_buffer_status_callbacks as int,
            ),
        ),
    );
    lemma_line(t10, "audio_buffer_occupancy_min_percent"@, number(least_occupancy(session) as int));
    let t11 = with_line(
        t10,
        "audio_buffer_occupancy_min_percent"@,
        number(least_occupancy(session) as int),
    );
    lemma_line(
        t11,
        "audio_buffer_occupancy_max_percent"@,
        number(session.audio_buffer_occupancy_max as int),
    );
    let t12 = with_line(
        t11,
        "audio_buffer_occupancy_max_percent"@,
        number(session.audio_buffer_occupancy_max as int),
    );
    lemma_line(
        t12,
        "audio_buffer_underrun_likely"@,
        number(session.audio_buffer_underrun_likely as int),
    );
    let t13 = with_line(
        t12,
        "audio_buffer_underrun_likely"@,
        number(session.audio_buffer_underrun_likely as int),
    );
    lemma_line(t13, "async_audio_callback_status"@, "unsupported"@);
    let t14 = with_line(t13, "async_audio_callback_status"@, "unsupported"@);
    lemma_line(t14, "async_audio_enabled"@, "false"@);
    let t15 = with_line(t14, "async_audio_enabled"@, "false"@);
    lemma_line(t15, "async_audio_state_changes"@, "0"@);
    let t16 = with_line(t15, "async_audio_state_changes"@, "0"@);
    lemma_line(t16, "async_audio_callback_calls"@, "0"@);
    let t17 = with_line(t16, "async_audio_callback_calls"@, "0"@);
    lemma_line(t17, "async_audio_real_frames"@, "0"@);
    let t18 = with_line(t17, "async_audio_real_frames"@, "0"@);
    lemma_line(t18, "async_audio_output_frames_requested"@, "0"@);
    let t19 = with_line(t18, "async_audio_output_frames_requested"@, "0"@);
    lemma_line(t19, "async_audio_output_frames_accepted"@, "0"@);
    let t20 = with_line(t19, "async_audio_output_frames_accepted"@, "0"@);
    lemma_line(t20, "async_audio_dropped_frames"@, "0"@);
    let t21 = with_line(t20, "async_audio_dropped_frames"@, "0"@);
    lemma_line(t21, "async_audio_max_queued_frames"@, "0"@);
    let t22 = with_line(t21, "async_audio_max_queued_frames"@, "0"@);
}

proof fn lemma_jit_lines(text: Seq<char>, jit: JitDiagnostics)
    requires
        is_ended(text),
    ensures
        is_ended(jit_lines(text, jit)),
        says_all_of(jit_lines(text, jit), text),
        says(jit_lines(text, jit), "jit_feature_available"@, flag(jit.feature_available)),
        says(jit_lines(text, jit), "jit_enabled"@, flag(jit.enabled)),
        says(jit_lines(text, jit), "jit_backend_available"@, flag(jit.backend_available)),
        says(jit_lines(text, jit), "jit_tracked_blocks"@, number(jit.tracked_blocks as int)),
        says(jit_lines(text, jit), "jit_compiled_blocks"@, number(jit.compiled_blocks as int)),
        says(jit_lines(text, jit), "jit_failed_blocks"@, number(jit.failed_blocks as int)),
        says(jit_lines(text, jit), "jit_execute_requests"@, number(jit.execute_requests as int)),
        says(jit_lines(text, jit), "jit_native_executions"@, number(jit.native_executions as int)),
        says(
            jit_lines(text, jit),
            "jit_native_instructions"@,
            number(jit.native_instructions as int),
        ),
        says(
            jit_lines(text, jit),
            "jit_interpreter_executions"@,
            number(jit.interpreter_executions as int),
        ),
        says(
            jit_lines(text, jit),
            "jit_interpreter_instructions"@,
            number(jit.interpreter_instructions as int),
        ),
        says(
            jit_lines(text, jit),
            "jit_compilation_attempts"@,
            number(jit.compilation_attempts as int),
        ),
        says(
            jit_lines(text, jit),
            "jit_compilation_failures"@,
            number(jit.compilation_failures as int),
        ),
        says(
            jit_lines(text, jit),
            "jit_compilation_total_us"@,
            number(jit.compilation_total_us as int),
        ),
        says(
            jit_lines(text, jit),
            "jit_compilation_max_us"@,
            number(jit.compilation_max_us as int),
        ),
        says(jit_lines(text, jit), "jit_cold_fallbacks"@, number(jit.cold_fallbacks as int)),
        says(
            jit_lines(text, jit),
            "jit_unavailable_fallbacks"@,
            number(jit.unavailable_fallbacks as int),
        ),
        says(
            jit_lines(text, jit),
            "jit_cache_capacity_fallbacks"@,
            number(jit.cache_capacity_fallbacks as int),
        ),
        says(
            jit_lines(text, jit),
            "jit_below_hot_threshold_fallbacks"@,
            number(jit.below_hot_threshold_fallbacks as int),
        ),
        says(
            jit_lines(text, jit),
            "jit_compile_budget_fallbacks"@,
            number(jit.compile_budget_fallbacks as int),
        ),
        says(
            jit_lines(text, jit),
            "jit_block_too_short_fallbacks"@,
            number(jit.block_too_short_fallbacks as int),
        ),
        says(
            jit_lines(text, jit),
            "jit_unsupported_instruction_fallbacks"@,
            number(jit.unsupported_instruction_fallbacks as int),
        ),
        says(
            jit_lines(text, jit),
            "jit_failed_block_fallbacks"@,
            number(jit.failed_block_fallbacks as int),
        ),
        says(
            jit_lines(text, jit),
            "jit_instruction_limit_fallbacks"@,
            number(jit.instruction_limit_fallbacks as int),
        ),
        says(
            jit_lines(text, jit),
            "jit_zero_exit_fallbacks"@,
            number(jit.zero_exit_fallbacks as int),
        ),
        says(jit_lines(text, jit), "jit_slow_memory_exits"@, number(jit.slow_memory_exits as int)),
        says(jit_lines(text, jit), "jit_fast_cache_hits"@, number(jit.fast_cache_hits as int)),
        says(jit_lines(text, jit), "jit_map_cache_hits"@, number(jit.map_cache_hits as int)),
        says(
            jit_lines(text, jit),
            "jit_fast_cache_collisions"@,
            number(jit.fast_cache_collisions as int),
        ),
        says(
            jit_lines(text, jit),
            "jit_failed_hotspot_count"@,
            number(jit.failed_hotspot_count as int),
        ),
{
    reveal(jit_lines);
    let t0 = text;
    lemma_line(t0, "jit_feature_available"@, flag(jit.feature_available));
    let t1 = with_line(t0, "jit_feature_available"@, flag(jit.feature_available));
    lemma_line(t1, "jit_enabled"@, flag(jit.enabled));
    let t2 = with_line(t1, "jit_enabled"@, flag(jit.enabled));
    lemma_line(t2, "jit_backend_available"@, flag(jit.backend_available));
    let t3 = with_line(t2, "jit_backend_available"@, flag(jit.backend_available));
    lemma_line(t3, "jit_tracked_blocks"@, number(jit.tracked_blocks as int));
    let t4 = with_line(t3, "jit_tracked_blocks"@, number(jit.tracked_blocks as int));
    lemma_line(t4, "jit_compiled_blocks"@, number(jit.compiled_blocks as int));
    let t5 = with_line(t4, "jit_compiled_blocks"@, number(jit.compiled_blocks as int));
    lemma_line(t5, "jit_failed_blocks"@, number(jit.failed_blocks as int));
    let t6 = with_line(t5, "jit_failed_blocks"@, number(jit.failed_blocks as int));
    lemma_line(t6, "jit_execute_requests"@, number(jit.execute_requests as int));
    let t7 = with_line(t6, "jit_execute_requests"@, number(jit.execute_requests as int));
    lemma_line(t7, "jit_native_executions"@, number(jit.native_executions as int));
    let t8 = with_line(t7, "jit_native_executions"@, number(jit.native_executions as int));
    lemma_line(t8, "jit_native_instructions"@, number(jit.native_instructions as int));
    let t9 = with_line(t8, "jit_native_instructions"@, number(jit.native_instructions as int));
    lemma_line(t9, "jit_interpreter_executions"@, number(jit.interpreter_executions as int));
    let t10 = with_line(
        t9,
        "jit_interpreter_executions"@,
        number(jit.interpreter_executions as int),
    );
    lemma_line(t10, "jit_interpreter_instructions"@, number(jit.interpreter_instructions as int));
    let t11 = with_line(
        t10,
        "jit_interpreter_instructions"@,
        number(jit.interpreter_instructions as int),
    );
    lemma_line(t11, "jit_compilation_attempts"@, number(jit.compilation_attempts as int));
    let t12 = with_line(t11, "jit_compilation_attempts"@, number(jit.compilation_attempts as int));
    lemma_line(t12, "jit_compilation_failures"@, number(jit.compilation_failures as int));
    let t13 = with_line(t12, "jit_compilation_failures"@, number(jit.compilation_failures as int));
    lemma_line(t13, "jit_compilation_total_us"@, number(jit.compilation_total_us as int));
    let t14 = with_line(t13, "jit_compilation_total_us"@, number(jit.compilation_total_us as int));
    lemma_line(t14, "jit_compilation_max_us"@, number(jit.compilation_max_us as int));
    let t15 = with_line(t14, "jit_compilation_max_us"@, number(jit.compilation_max_us as int));
    lemma_line(t15, "jit_cold_fallbacks"@, number(jit.cold_fallbacks as int));
    let t16 = with_line(t15, "jit_cold_fallbacks"@, number(jit.cold_fallbacks as int));
    lemma_line(t16, "jit_unavailable_fallbacks"@, number(jit.unavailable_fallbacks as int));
    let t17 = with_line(
        t16,
        "jit_unavailable_fallbacks"@,
        number(jit.unavailable_fallbacks as int),
    );
    lemma_line(t17, "jit_cache_capacity_fallbacks"@, number(jit.cache_capacity_fallbacks as int));
    let t18 = with_line(
        t17,
        "jit_cache_capacity_fallbacks"@,
        number(jit.cache_capacity_fallbacks as int),
    );
    lemma_line(
        t18,
        "jit_below_hot_threshold_fallbacks"@,
        number(jit.below_hot_threshold_fallbacks as int),
    );
    let t19 = with_line(
        t18,
        "jit_below_hot_threshold_fallbacks"@,
        number(jit.below_hot_threshold_fallbacks as int),
    );
    lemma_line(t19, "jit_compile_budget_fallbacks"@, number(jit.compile_budget_fallbacks as int));
    let t20 = with_line(
        t19,
        "jit_compile_budget_fallbacks"@,
        number(jit.compile_budget_fallbacks as int),
    );
    lemma_line(t20, "jit_block_too_short_fallbacks"@, number(jit.block_too_short_fallbacks as int));
    let t21 = with_line(
        t20,
        "jit_block_too_short_fallbacks"@,
        number(jit.block_too_short_fallbacks as int),
    );
    lemma_line(
        t21,
        "jit_unsupported_instruction_fallbacks"@,
        number(jit.unsupported_instruction_fallbacks as int),
    );
    let t22 = with_line(
        t21,
        "jit_unsupported_instruction_fallbacks"@,
        number(jit.unsupported_instruction_fallbacks as int),
    );
    lemma_line(t22, "jit_failed_block_fallbacks"@, number(jit.failed_block_fallbacks as int));
    let t23 = with_line(
        t22,
        "jit_failed_block_fallbacks"@,
        number(jit.failed_block_fallbacks as int),
    );
    lemma_line(
        t23,
        "jit_instruction_limit_fallbacks"@,
        number(jit.instruction_limit_fallbacks as int),
    );
    let t24 = with_line(
        t23,
        "jit_instruction_limit_fallbacks"@,
        number(jit.instruction_limit_fallbacks as int),
    );
    lemma_line(t24, "jit_zero_exit_fallbacks"@, number(jit.zero_exit_fallbacks as int));
    let t25 = with_line(t24, "jit_zero_exit_fallbacks"@, number(jit.zero_exit_fallbacks as int));
    lemma_line(t25, "jit_slow_memory_exits"@, number(jit.slow_memory_exits as int));
    let t26 = with_line(t25, "jit_slow_memory_exits"@, number(jit.slow_memory_exits as int));
    lemma_line(t26, "jit_fast_cache_hits"@, number(jit.fast_cache_hits as int));
    let t27 = with_line(t26, "jit_fast_cache_hits"@, number(jit.fast_cache_hits as int));
    lemma_line(t27, "jit_map_cache_hits"@, number(jit.map_cache_hits as int));
    let t28 = with_line(t27, "jit_map_cache_hits"@, number(jit.map_cache_hits as int));
    lemma_line(t28, "jit_fast_cache_collisions"@, number(jit.fast_cache_collisions as int));
    let t29 = with_line(
        t28,
        "jit_fast_cache_collisions"@,
        number(jit.fast_cache_collisions as int),
    );
    lemma_line(t29, "jit_failed_hotspot_count"@, number(jit.failed_hotspot_count as int));
    let t30 = with_line(t29, "jit_failed_hotspot_count"@, number(jit.failed_hotspot_count as int));
}

proof fn lemma_hotspot_lines(text: Seq<char>, blocks: Seq<JitFailedBlockHotspot>, count: int)
    requires
        is_ended(text),
    ensures
        is_ended(hotspot_lines(text, blocks, count)),
        says_all_of(hotspot_lines(text, blocks, count), text),
        forall|i: int|
            0 <= i < count ==> says(
                hotspot_lines(text, blocks, count),
                hotspot_key(i),
                hotspot_text(#[trigger] blocks[i]),
            ),
    decreases count,
{
    if count > 0 {
        lemma_hotspot_lines(text, blocks, count - 1);
        let earlier = hotspot_lines(text, blocks, count - 1);
        lemma_line(earlier, hotspot_key(count - 1), hotspot_text(blocks[count - 1]));
    }
}

/// The text of a report before each of its sections.
proof fn lemma_sections(
    session: DiagnosticSession,
    jit: JitDiagnostics,
    host: HostInfo,
    elapsed_ms: u128,
) -> (texts: Seq<Seq<char>>)
    ensures
        texts.len() == 6,
        forall|i: int| 0 <= i < 6 ==> is_ended(#[trigger] texts[i]),
        forall|i: int|
            0 <= i < 6 ==> says_all_of(
                report_text(session, jit, host, elapsed_ms),
                #[trigger] texts[i],
            ),
        texts[1] == host_lines(texts[0], host, session.content_name@, elapsed_ms),
        texts[2] == total_timing_lines(texts[1], session.total),
        texts[3] == recent_timing_lines(texts[2], session.recent),
        texts[4] == audio_lines(texts[3], session),
        texts[5] == jit_lines(texts[4], jit),
        report_text(session, jit, host, elapsed_ms) == hotspot_lines(
            texts[5],
            jit.failed_hotspots@,
            jit.failed_hotspot_count as int,
        ),
{
    reveal_strlit("DingooEmu performance diagnostics\n");
    let t0 = "DingooEmu performance diagnostics\n"@;
    assert(t0.len() == 34 && t0[33] == '\n');
    let t1 = host_lines(t0, host, session.content_name@, elapsed_ms);
    lemma_host_lines(t0, host, session.content_name@, elapsed_ms);
    let t2 = total_timing_lines(t1, session.total);
    lemma_total_timing_lines(t1, session.total);
    let t3 = recent_timing_lines(t2, session.recent);
    lemma_recent_timing_lines(t2, session.recent);
    let t4 = audio_lines(t3, session);
    lemma_audio_lines(t3, session);
    let t5 = jit_lines(t4, jit);
    lemma_jit_lines(t4, jit);
    lemma_hotspot_lines(t5, jit.failed_hotspots@, jit.failed_hotspot_count as int);
    seq![t0, t1, t2, t3, t4, t5]
}

/// The report names the program, its host and the content, and how long it ran.
pub proof fn law_the_report_names_the_program(
    session: DiagnosticSession,
    jit: JitDiagnostics,
    host: HostInfo,
    elapsed_ms: u128,
)
    ensures
        ({
            let text = report_text(session, jit, host, elapsed_ms);
            &&& says(text, "format_version"@, "7"@)
            &&& says(text, "core_version"@, host.core_version@)
            &&& says(text, "target_os"@, host.target_os@)
            &&& says(text, "target_arch"@, host.target_arch@)
            &&& says_number(text, "pointer_width"@, host.pointer_width as int)
            &&& says(text, "content"@, session.content_name@)
            &&& says_number(text, "elapsed_ms"@, elapsed_ms as int)
        }),
{
    let text = report_text(session, jit, host, elapsed_ms);
    let texts = lemma_sections(session, jit, host, elapsed_ms);
    lemma_host_lines(texts[0], host, session.content_name@, elapsed_ms);
    assert(says(texts[1], "format_version"@, "7"@));
    assert(says(texts[1], "core_version"@, host.core_version@));
    assert(says(texts[1], "target_os"@, host.target_os@));
    assert(says(texts[1], "target_arch"@, host.target_arch@));
    lemma_number(text, "pointer_width"@, host.pointer_width as int);
    assert(says(texts[1], "content"@, session.content_name@));
    lemma_number(text, "elapsed_ms"@, elapsed_ms as int);
}

/// The report gives the number of frames, and the average and the largest time of each
/// part of their work.
pub proof fn law_the_report_times_all_frames(
    session: DiagnosticSession,
    jit: JitDiagnostics,
    host: HostInfo,
    elapsed_ms: u128,
)
    ensures
        ({
            let text = report_text(session, jit, host, elapsed_ms);
            &&& says_number(text, "frames"@, session.total.frames as int)
            &&& says_average(
                text,
                "tick_average_us"@,
                session.total.tick_total_us as int,
                session.total.frames as int,
            )
            &&& says_number(text, "tick_max_us"@, session.total.tick_max_us as int)
            &&& says_average(
                text,
                "run_average_us"@,
                session.total.run_total_us as int,
                session.total.frames as int,
            )
            &&& says_number(text, "run_max_us"@, session.total.run_max_us as int)
            &&& says_average(
                text,
                "video_average_us"@,
                session.total.video_total_us as int,
                session.total.frames as int,
            )
            &&& says_number(text, "video_max_us"@, session.total.video_max_us as int)
            &&& says_average(
                text,
                "audio_average_us"@,
                session.total.audio_total_us as int,
                session.total.frames as int,
            )
            &&& says_number(text, "audio_max_us"@, session.total.audio_max_us as int)
        }),
{
    let text = report_text(session, jit, host, elapsed_ms);
    let texts = lemma_sections(session, jit, host, elapsed_ms);
    lemma_total_timing_lines(texts[1], session.total);
    lemma_number(text, "frames"@, session.total.frames as int);
    lemma_average(
        text,
        "tick_average_us"@,
        session.total.tick_total_us as int,
        session.total.frames as int,
    );
    lemma_number(text, "tick_max_us"@, session.total.tick_max_us as int);
    lemma_average(
        text,
        "run_average_us"@,
        session.total.run_total_us as int,
        session.total.frames as int,
    );
    lemma_number(text, "run_max_us"@, session.total.run_max_us as int);
    lemma_average(
        text,
        "video_average_us"@,
        session.total.video_total_us as int,
        session.total.frames as int,
    );
    lemma_number(text, "video_max_us"@, session.total.video_max_us as int);
    lemma_average(
        text,
        "audio_average_us"@,
        session.total.audio_total_us as int,
        session.total.frames as int,
    );
    lemma_number(text, "audio_max_us"@, session.total.audio_max_us as int);
}

/// The report gives the same of recent frames.
pub proof fn law_the_report_times_recent_frames(
    session: DiagnosticSession,
    jit: JitDiagnostics,
    host: HostInfo,
    elapsed_ms: u128,
)
    ensures
        ({
            let text = report_text(session, jit, host, elapsed_ms);
            &&& says_number(text, "recent_frames"@, session.recent.frames as int)
            &&& says_average(
                text,
                "recent_tick_average_us"@,
                session.recent.tick_total_us as int,
                session.recent.frames as int,
            )
            &&& says_number(text, "recent_tick_max_us"@, session.recent.tick_max_us as int)
            &&& says_average(
                text,
                "recent_run_average_us"@,
                session.recent.run_total_us as int,
                session.recent.frames as int,
            )
            &&& says_number(text, "recent_run_max_us"@, session.recent.run_max_us as int)
            &&& says_average(
                text,
                "recent_video_average_us"@,
                session.recent.video_total_us as int,
                session.recent.frames as int,
            )
            &&& says_number(text, "recent_video_max_us"@, session.recent.video_max_us as int)
            &&& says_average(
                text,
                "recent_audio_average_us"@,
                session.recent.audio_total_us as int,
                session.recent.frames as int,
            )
            &&& says_number(text, "recent_audio_max_us"@, session.recent.audio_max_us as int)
        }),
{
    let text = report_text(session, jit, host, elapsed_ms);
    let texts = lemma_sections(session, jit, host, elapsed_ms);
    lemma_recent_timing_lines(texts[2], session.recent);
    lemma_number(text, "recent_frames"@, session.recent.frames as int);
    lemma_average(
        text,
        "recent_tick_average_us"@,
        session.recent.tick_total_us as int,
        session.recent.frames as int,
    );
    lemma_number(text, "recent_tick_max_us"@, session.recent.tick_max_us as int);
    lemma_average(
        text,
        "recent_run_average_us"@,
        session.recent.run_total_us as int,
        session.recent.frames as int,
    );
    lemma_number(text, "recent_run_max_us"@, session.recent.run_max_us as int);
    lemma_average(
        text,
        "recent_video_average_us"@,
        session.recent.video_total_us as int,
        session.recent.frames as int,
    );
    lemma_number(text, "recent_video_max_us"@, session.recent.video_max_us as int);
    lemma_average(
        text,
        "recent_audio_average_us"@,
        session.recent.audio_total_us as int,
        session.recent.frames as int,
    );
    lemma_number(text, "recent_audio_max_us"@, session.recent.audio_max_us as int);
}

/// The report gives the sound that was asked for and taken, and what is known of the host's
/// buffer.
pub proof fn law_the_report_counts_sound(
    session: DiagnosticSession,
    jit: JitDiagnostics,
    host: HostInfo,
    elapsed_ms: u128,
)
    ensures
        ({
            let text = report_text(session, jit, host, elapsed_ms);
            &&& says_number(text, "audio_frames_requested"@, session.audio_frames_requested as int)
            &&& says_number(text, "audio_frames_accepted"@, session.audio_frames_accepted as int)
            &&& says_number(text, "audio_short_writes"@, session.audio_short_writes as int)
            &&& says_number(
                text,
                "audio_output_sample_rate_hz"@,
                session.audio_output_sample_rate_hz as int,
            )
            &&& says(text, "audio_minimum_latency_ms"@, "0"@)
            &&& says(text, "audio_latency_request_status"@, "not_requested"@)
            &&& says(
                text,
                "audio_buffer_status_callback_status"@,
                status_text(session.audio_buffer_status_callback_supported),
            )
            &&& says_number(
                text,
                "audio_buffer_status_callbacks"@,
                session.audio_buffer_status_callbacks as int,
            )
            &&& says_number(
                text,
                "audio_buffer_active_callbacks"@,
                session.audio_buffer_active_callbacks as int,
            )
            &&& says_average(
                text,
                "audio_buffer_occupancy_average_percent"@,
                session.audio_buffer_occupancy_total as int,
                session.audio_buffer_status_callbacks as int,
            )
            &&& says_number(
                text,
                "audio_buffer_occupancy_min_percent"@,
                least_occupancy(session) as int,
            )
            &&& says_number(
                text,
                "audio_buffer_occupancy_max_percent"@,
                session.audio_buffer_occupancy_max as int,
            )
            &&& says_number(
                text,
                "audio_buffer_underrun_likely"@,
                session.audio_buffer_underrun_likely as int,
            )
            &&& says(text, "async_audio_callback_status"@, "unsupported"@)
            &&& says(text, "async_audio_enabled"@, "false"@)
            &&& says(text, "async_audio_state_changes"@, "0"@)
            &&& says(text, "async_audio_callback_calls"@, "0"@)
            &&& says(text, "async_audio_real_frames"@, "0"@)
            &&& says(text, "async_audio_output_frames_requested"@, "0"@)
            &&& says(text, "async_audio_output_frames_accepted"@, "0"@)
            &&& says(text, "async_audio_dropped_frames"@, "0"@)
            &&& says(text, "async_audio_max_queued_frames"@, "0"@)
        }),
{
    let text = report_text(session, jit, host, elapsed_ms);
    let texts = lemma_sections(session, jit, host, elapsed_ms);
    lemma_audio_lines(texts[3], session);
    lemma_number(text, "audio_frames_requested"@, session.audio_frames_requested as int);
    lemma_number(text, "audio_frames_accepted"@, session.audio_frames_accepted as int);
    lemma_number(text, "audio_short_writes"@, session.audio_short_writes as int);
    lemma_number(text, "audio_output_sample_rate_hz"@, session.audio_output_sample_rate_hz as int);
    assert(says(texts[4], "audio_minimum_latency_ms"@, "0"@));
    assert(says(texts[4], "audio_latency_request_status"@, "not_requested"@));
    assert(says(
        texts[4],
        "audio_buffer_status_callback_status"@,
        status_text(session.audio_buffer_status_callback_supported),
    ));
    lemma_number(
        text,
        "audio_buffer_status_callbacks"@,
        session.audio_buffer_status_callbacks as int,
    );
    lemma_number(
        text,
        "audio_buffer_active_callbacks"@,
        session.audio_buffer_active_callbacks as int,
    );
    lemma_average(
        text,
        "audio_buffer_occupancy_average_percent"@,
        session.audio_buffer_occupancy_total as int,
        session.audio_buffer_status_callbacks as int,
    );
    lemma_number(text, "audio_buffer_occupancy_min_percent"@, least_occupancy(session) as int);
    lemma_number(
        text,
        "audio_buffer_occupancy_max_percent"@,
        session.audio_buffer_occupancy_max as int,
    );
    lemma_number(
        text,
        "audio_buffer_underrun_likely"@,
        session.audio_buffer_underrun_likely as int,
    );
    assert(says(texts[4], "async_audio_callback_status"@, "unsupported"@));
    assert(says(texts[4], "async_audio_enabled"@, "false"@));
    assert(says(texts[4], "async_audio_state_changes"@, "0"@));
    assert(says(texts[4], "async_audio_callback_calls"@, "0"@));
    assert(says(texts[4], "async_audio_real_frames"@, "0"@));
    assert(says(texts[4], "async_audio_output_frames_requested"@, "0"@));
    assert(says(texts[4], "async_audio_output_frames_accepted"@, "0"@));
    assert(says(texts[4], "async_audio_dropped_frames"@, "0"@));
    assert(says(texts[4], "async_audio_max_queued_frames"@, "0"@));
}

/// The report gives what was counted of compiled and interpreted code.
pub proof fn law_the_report_counts_compiled_code(
    session: DiagnosticSession,
    jit: JitDiagnostics,
    host: HostInfo,
    elapsed_ms: u128,
)
    ensures
        ({
            let text = report_text(session, jit, host, elapsed_ms);
            &&& says(text, "jit_feature_available"@, flag(jit.feature_available))
            &&& says(text, "jit_enabled"@, flag(jit.enabled))
            &&& says(text, "jit_backend_available"@, flag(jit.backend_available))
            &&& says_number(text, "jit_tracked_blocks"@, jit.tracked_blocks as int)
            &&& says_number(text, "jit_compiled_blocks"@, jit.compiled_blocks as int)
            &&& says_number(text, "jit_failed_blocks"@, jit.failed_blocks as int)
            &&& says_number(text, "jit_execute_requests"@, jit.execute_requests as int)
            &&& says_number(text, "jit_native_executions"@, jit.native_executions as int)
            &&& says_number(text, "jit_native_instructions"@, jit.native_instructions as int)
            &&& says_number(text, "jit_interpreter_executions"@, jit.interpreter_executions as int)
            &&& says_number(
                text,
                "jit_interpreter_instructions"@,
                jit.interpreter_instructions as int,
            )
            &&& says_number(text, "jit_compilation_attempts"@, jit.compilation_attempts as int)
            &&& says_number(text, "jit_compilation_failures"@, jit.compilation_failures as int)
            &&& says_number(text, "jit_compilation_total_us"@, jit.compilation_total_us as int)
            &&& says_number(text, "jit_compilation_max_us"@, jit.compilation_max_us as int)
            &&& says_number(text, "jit_cold_fallbacks"@, jit.cold_fallbacks as int)
            &&& says_number(text, "jit_unavailable_fallbacks"@, jit.unavailable_fallbacks as int)
            &&& says_number(
                text,
                "jit_cache_capacity_fallbacks"@,
                jit.cache_capacity_fallbacks as int,
            )
            &&& says_number(
                text,
                "jit_below_hot_threshold_fallbacks"@,
                jit.below_hot_threshold_fallbacks as int,
            )
            &&& says_number(
                text,
                "jit_compile_budget_fallbacks"@,
                jit.compile_budget_fallbacks as int,
            )
            &&& says_number(
                text,
                "jit_block_too_short_fallbacks"@,
                jit.block_too_short_fallbacks as int,
            )
            &&& says_number(
                text,
                "jit_unsupported_instruction_fallbacks"@,
                jit.unsupported_instruction_fallbacks as int,
            )
            &&& says_number(text, "jit_failed_block_fallbacks"@, jit.failed_block_fallbacks as int)
            &&& says_number(
                text,
                "jit_instruction_limit_fallbacks"@,
                jit.instruction_limit_fallbacks as int,
            )
            &&& says_number(text, "jit_zero_exit_fallbacks"@, jit.zero_exit_fallbacks as int)
            &&& says_number(text, "jit_slow_memory_exits"@, jit.slow_memory_exits as int)
            &&& says_number(text, "jit_fast_cache_hits"@, jit.fast_cache_hits as int)
            &&& says_number(text, "jit_map_cache_hits"@, jit.map_cache_hits as int)
            &&& says_number(text, "jit_fast_cache_collisions"@, jit.fast_cache_collisions as int)
            &&& says_number(text, "jit_failed_hotspot_count"@, jit.failed_hotspot_count as int)
        }),
{
    let text = report_text(session, jit, host, elapsed_ms);
    let texts = lemma_sections(session, jit, host, elapsed_ms);
    lemma_jit_lines(texts[4], jit);
    assert(says(texts[5], "jit_feature_available"@, flag(jit.feature_available)));
    assert(says(texts[5], "jit_enabled"@, flag(jit.enabled)));
    assert(says(texts[5], "jit_backend_available"@, flag(jit.backend_available)));
    lemma_number(text, "jit_tracked_blocks"@, jit.tracked_blocks as int);
    lemma_number(text, "jit_compiled_blocks"@, jit.compiled_blocks as int);
    lemma_number(text, "jit_failed_blocks"@, jit.failed_blocks as int);
    lemma_number(text, "jit_execute_requests"@, jit.execute_requests as int);
    lemma_number(text, "jit_native_executions"@, jit.native_executions as int);
    lemma_number(text, "jit_native_instructions"@, jit.native_instructions as int);
    lemma_number(text, "jit_interpreter_executions"@, jit.interpreter_executions as int);
    lemma_number(text, "jit_interpreter_instructions"@, jit.interpreter_instructions as int);
    lemma_number(text, "jit_compilation_attempts"@, jit.compilation_attempts as int);
    lemma_number(text, "jit_compilation_failures"@, jit.compilation_failures as int);
    lemma_number(text, "jit_compilation_total_us"@, jit.compilation_total_us as int);
    lemma_number(text, "jit_compilation_max_us"@, jit.compilation_max_us as int);
    lemma_number(text, "jit_cold_fallbacks"@, jit.cold_fallbacks as int);
    lemma_number(text, "jit_unavailable_fallbacks"@, jit.unavailable_fallbacks as int);
    lemma_number(text, "jit_cache_capacity_fallbacks"@, jit.cache_capacity_fallbacks as int);
    lemma_number(
        text,
        "jit_below_hot_threshold_fallbacks"@,
        jit.below_hot_threshold_fallbacks as int,
    );
    lemma_number(text, "jit_compile_budget_fallbacks"@, jit.compile_budget_fallbacks as int);
    lemma_number(text, "jit_block_too_short_fallbacks"@, jit.block_too_short_fallbacks as int);
    lemma_number(
        text,
        "jit_unsupported_instruction_fallbacks"@,
        jit.unsupported_instruction_fallbacks as int,
    );
    lemma_number(text, "jit_failed_block_fallbacks"@, jit.failed_block_fallbacks as int);
    lemma_number(text, "jit_instruction_limit_fallbacks"@, jit.instruction_limit_fallbacks as int);
    lemma_number(text, "jit_zero_exit_fallbacks"@, jit.zero_exit_fallbacks as int);
    lemma_number(text, "jit_slow_memory_exits"@, jit.slow_memory_exits as int);
    lemma_number(text, "jit_fast_cache_hits"@, jit.fast_cache_hits as int);
    lemma_number(text, "jit_map_cache_hits"@, jit.map_cache_hits as int);
    lemma_number(text, "jit_fast_cache_collisions"@, jit.fast_cache_collisions as int);
    lemma_number(text, "jit_failed_hotspot_count"@, jit.failed_hotspot_count as int);
}

/// The report lists the blocks that could not be compiled, in the order of their ranking.
pub proof fn law_the_report_lists_failed_blocks(
    session: DiagnosticSession,
    jit: JitDiagnostics,
    host: HostInfo,
    elapsed_ms: u128,
    index: int,
)
    requires
        0 <= index < jit.failed_hotspot_count,
    ensures
        says(
            report_text(session, jit, host, elapsed_ms),
            hotspot_key(index),
            hotspot_text(jit.failed_hotspots@[index]),
        ),
{
    let texts = lemma_sections(session, jit, host, elapsed_ms);
    lemma_hotspot_lines(texts[5], jit.failed_hotspots@, jit.failed_hotspot_count as int);
    let block = jit.failed_hotspots@[index];
}

/// A block that could not be compiled is described by its address, the reason, the number
/// of instructions that could be, the one in the way and the number of requests, with
/// commas between them.
pub proof fn law_failed_blocks_in_reports(block: JitFailedBlockHotspot)
    ensures
        exists|start: Seq<char>, length: Seq<char>, blocking: Seq<char>, requests: Seq<char>|
            {
                &&& hotspot_text(block) == #[trigger] (start + seq![',']) + block.reason.text()
                    + seq![','] + #[trigger] (length + seq![',']) + #[trigger] (blocking + seq![
                    ',',
                ]) + #[trigger] (requests + Seq::empty())
                &&& start.len() == 10 && read_digits(start.skip(2), 16) == block.start
                &&& read_digits(length, 10) == block.candidate_len
                &&& blocking.len() == 10 && read_digits(blocking.skip(2), 16)
                    == block.blocking_instruction
                &&& read_digits(requests, 10) == block.fallbacks
            },
{
    let start = hex_word(block.start);
    let length = number(block.candidate_len as int);
    let blocking = hex_word(block.blocking_instruction);
    let requests = number(block.fallbacks as int);
    law_words_in_reports(block.start);
    law_words_in_reports(block.blocking_instruction);
    law_digits_read_back(block.candidate_len as nat, 10, false);
    law_digits_read_back(block.fallbacks as nat, 10, false);
    assert(hotspot_text(block) =~= (start + seq![',']) + block.reason.text() + seq![','] + (length
        + seq![',']) + (blocking + seq![',']) + (requests + Seq::empty()));
}

} // verus!
