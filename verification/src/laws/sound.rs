//! How guest samples become output.

use crate::audio::{
    frame_at, frame_taken, fresh_resampler, guest_volume, lemma_segment_frames, lemma_stream,
    master_percent, pcm_samples, segment_outputs, volume_ratio, written, Audio, AudioWrite, Frame,
    Interpolation, SampleFormat, StreamingResampler,
};
use crate::host_audio::{frame_passed, HostAudio, HostWrite};
use vstd::prelude::*;

verus! {

proof fn lemma_signed_sample(sample: u16)
    by (bit_vector)
    ensures
        sample < 0x8000 ==> (sample as i16) as int == sample,
        sample >= 0x8000 ==> (sample as i16) as int == sample - 0x1_0000,
{
}

proof fn lemma_whole_frames(count: int, channels: int)
    requires
        channels >= 1,
        count >= 0,
    ensures
        0 <= count % channels <= count,
        count % channels < channels,
        (count - count % channels) % channels == 0,
{
    vstd::arithmetic::div_mod::lemma_fundamental_div_mod(count, channels);
    vstd::arithmetic::div_mod::lemma_mod_multiples_basic(count / channels, channels);
    vstd::arithmetic::div_mod::lemma_mod_decreases(count as nat, channels as nat);
    assert(channels * (count / channels) == (count / channels) * channels) by (nonlinear_arith);
}

/// An unsigned byte counts from 128 on, in steps of 256.
pub proof fn law_bytes_are_decoded(data: Seq<u8>, channels: u8)
    requires
        channels >= 1,
    ensures
        ({
            let samples = pcm_samples(data, SampleFormat::U8, channels);
            &&& samples.len() <= data.len() < samples.len() + channels
            &&& samples.len() % channels as nat == 0
            &&& forall|i: int|
                0 <= i < samples.len() ==> #[trigger] samples[i] == 256 * data[i] - 32768
        }),
{
    let count = data.len() as int;
    lemma_whole_frames(count, channels as int);
}

/// A pair of bytes is a number with a sign, its lower half first.
pub proof fn law_pairs_of_bytes_are_decoded(data: Seq<u8>, channels: u8)
    requires
        channels >= 1,
    ensures
        ({
            let samples = pcm_samples(data, SampleFormat::S16Le, channels);
            &&& 2 * samples.len() <= data.len() < 2 * samples.len() + 2 * channels
            &&& samples.len() % channels as nat == 0
            &&& forall|i: int|
                0 <= i < samples.len() ==> {
                    let sample = #[trigger] samples[i] as int;
                    &&& (sample - data[2 * i] - 256 * data[2 * i + 1]) % 0x1_0000 == 0
                    &&& sample < 0 <==> data[2 * i + 1] >= 128
                }
        }),
{
    let count = data.len() as int / 2;
    lemma_whole_frames(count, channels as int);
    let samples = pcm_samples(data, SampleFormat::S16Le, channels);
    assert forall|i: int| 0 <= i < samples.len() implies {
        let sample = #[trigger] samples[i] as int;
        &&& (sample - data[2 * i] - 256 * data[2 * i + 1]) % 0x1_0000 == 0
        &&& sample < 0 <==> data[2 * i + 1] >= 128
    } by {
        lemma_signed_sample((data[2 * i] + 256 * data[2 * i + 1]) as u16);
    }
}

/// Whether a frame is input frame number `index` of a stream: its first two channels, or
/// its only one on both sides.
pub open spec fn plays(frame: Frame, samples: Seq<i16>, channels: int, index: int) -> bool {
    &&& frame.left == samples[channels * index]
    &&& channels == 1 ==> frame.right == samples[index]
    &&& channels > 1 ==> frame.right == samples[channels * index + 1]
}

/// Whether an output frame is what stands at a time of a stream, where an input frame
/// takes 22050 units of it: on the way from the input frame before to number `index`.
pub open spec fn stands_at(
    output: Interpolation,
    samples: Seq<i16>,
    channels: int,
    index: int,
    time: int,
) -> bool {
    &&& plays(output.current, samples, channels, index)
    &&& index == 0 ==> time == 0 && output.offset == 0 && plays(
        output.previous,
        samples,
        channels,
        0,
    )
    &&& index > 0 ==> {
        &&& plays(output.previous, samples, channels, index - 1)
        &&& 0 < output.offset <= 22050
        &&& time == 22050 * (index - 1) + output.offset
    }
}

/// Whether an output frame is what stands at a time of a stream of so many input frames.
pub open spec fn stands_in(
    output: Interpolation,
    samples: Seq<i16>,
    channels: int,
    count: int,
    time: int,
) -> bool {
    exists|index: int|
        0 <= index < count && #[trigger] stands_at(output, samples, channels, index, time)
}

proof fn lemma_segment_times(
    previous: Frame,
    current: Frame,
    start: int,
    end: int,
    time: int,
    rate: int,
    i: int,
)
    requires
        rate > 0,
        start <= time,
        end - start <= 22050,
        0 <= i < segment_outputs(previous, current, start, end, time, rate).len(),
    ensures
        segment_outputs(previous, current, start, end, time, rate)[i].offset == time + rate * i
            - start,
        time + rate * i <= end,
    decreases i,
{
    if time <= end {
        let rest = segment_outputs(previous, current, start, end, time + rate, rate);
        if i > 0 {
            lemma_segment_times(previous, current, start, end, time + rate, rate, i - 1);
            assert(segment_outputs(previous, current, start, end, time, rate)[i] == rest[i - 1]);
            assert(rate * i == rate * (i - 1) + rate) by (nonlinear_arith);
        } else {
            assert(rate * i == 0) by (nonlinear_arith)
                requires
                    i == 0,
            ;
        }
    }
}

proof fn lemma_plays(samples: Seq<i16>, channels: int, index: int)
    requires
        channels >= 1,
    ensures
        plays(frame_at(samples, channels, index), samples, channels, index),
{
    assert(channels == 1 ==> channels * index == index) by (nonlinear_arith);
}

/// Output frame number `j` of a stream stands `j` output periods behind the first input
/// frame, between the two input frames that lie around that time.
pub proof fn law_output_frames_stand_between_input_frames(
    rate: u32,
    samples: Seq<i16>,
    channels: int,
    count: int,
)
    requires
        rate > 0,
        channels >= 1,
        fresh_resampler(rate).can_take(count),
    ensures
        ({
            let outputs = fresh_resampler(rate).after_frames(samples, channels, count).1;
            forall|j: int|
                0 <= j < outputs.len() ==> stands_in(
                    #[trigger] outputs[j],
                    samples,
                    channels,
                    count,
                    rate * j,
                )
        }),
    decreases count,
{
    let fresh = fresh_resampler(rate);
    if count > 0 {
        law_output_frames_stand_between_input_frames(rate, samples, channels, count - 1);
        let (earlier, outputs) = fresh.after_frames(samples, channels, count - 1);
        let current = frame_at(samples, channels, count - 1);
        let (after, more) = earlier.after_frame(current);
        let all = outputs + more;
        lemma_plays(samples, channels, count - 1);
        assert forall|j: int| 0 <= j < all.len() implies stands_in(
            #[trigger] all[j],
            samples,
            channels,
            count,
            rate * j,
        ) by {
            if j < outputs.len() {
                assert(all[j] == outputs[j]);
                assert(stands_in(outputs[j], samples, channels, count - 1, rate * j));
                let index = choose|index: int|
                    0 <= index < count - 1 && #[trigger] stands_at(
                        outputs[j],
                        samples,
                        channels,
                        index,
                        rate * j,
                    );
                assert(stands_at(all[j], samples, channels, index, rate * j));
            } else if count == 1 {
                assert(rate * j == 0) by (nonlinear_arith)
                    requires
                        j == 0,
                ;
                assert(stands_at(all[j], samples, channels, 0, rate * j));
            } else {
                lemma_stream(rate, samples, channels, count - 1);
                lemma_plays(samples, channels, count - 2);
                let previous = frame_at(samples, channels, count - 2);
                let start = (count - 2) * 22050;
                let end = (count - 1) * 22050;
                let time = earlier.next_output_time as int;
                let i = j - outputs.len();
                lemma_segment_times(previous, current, start, end, time, rate as int, i);
                lemma_segment_frames(previous, current, start, end, time, rate as int);
                assert(rate * j == rate * outputs.len() + rate * i) by (nonlinear_arith)
                    requires
                        j == outputs.len() + i,
                ;
                assert(rate * i >= 0) by (nonlinear_arith)
                    requires
                        i >= 0,
                        rate > 0,
                ;
                assert(all[j] == more[i]);
                assert(stands_at(all[j], samples, channels, count - 1, rate * j));
            }
        }
    }
}

/// Whether an output frame stands between two input frames of what was pushed: input frame
/// number `index` and the one before it, which is the last one of an earlier push where
/// that is the first.
pub open spec fn stands_in_push(
    output: Interpolation,
    earlier: Option<Frame>,
    samples: Seq<i16>,
    channels: int,
    index: int,
) -> bool {
    &&& plays(output.current, samples, channels, index)
    &&& index > 0 ==> plays(output.previous, samples, channels, index - 1)
    &&& index == 0 ==> output.previous == match earlier {
        Some(frame) => frame,
        None => output.current,
    }
}

/// Whether an output frame stands between two input frames of a push of so many.
pub open spec fn comes_from_push(
    output: Interpolation,
    earlier: Option<Frame>,
    samples: Seq<i16>,
    channels: int,
    count: int,
) -> bool {
    exists|index: int|
        0 <= index < count && #[trigger] stands_in_push(output, earlier, samples, channels, index)
}

/// Whatever was pushed before, both frames of every output frame are input frames with
/// their sides, one behind the other, and the last input frame is kept for the next push.
pub proof fn law_every_push_keeps_the_sides(
    resampler: StreamingResampler,
    samples: Seq<i16>,
    channels: int,
    count: int,
)
    requires
        channels >= 1,
        0 <= count,
    ensures
        ({
            let (after, outputs) = resampler.after_frames(samples, channels, count);
            &&& count == 0 ==> after == resampler && outputs.len() == 0
            &&& count > 0 ==> after.previous_frame is Some && plays(
                after.previous_frame->0,
                samples,
                channels,
                count - 1,
            )
            &&& forall|j: int|
                0 <= j < outputs.len() ==> comes_from_push(
                    #[trigger] outputs[j],
                    resampler.previous_frame,
                    samples,
                    channels,
                    count,
                )
        }),
    decreases count,
{
    if count > 0 {
        law_every_push_keeps_the_sides(resampler, samples, channels, count - 1);
        let (earlier, outputs) = resampler.after_frames(samples, channels, count - 1);
        let current = frame_at(samples, channels, count - 1);
        let (after, more) = earlier.after_frame(current);
        let all = outputs + more;
        lemma_plays(samples, channels, count - 1);
        if let Some(previous) = earlier.previous_frame {
            lemma_segment_frames(
                previous,
                current,
                (earlier.input_frames_seen - 1) * 22050,
                earlier.input_frames_seen * 22050,
                earlier.next_output_time as int,
                earlier.input_rate as int,
            );
        }
        assert forall|j: int| 0 <= j < all.len() implies comes_from_push(
            #[trigger] all[j],
            resampler.previous_frame,
            samples,
            channels,
            count,
        ) by {
            if j < outputs.len() {
                assert(all[j] == outputs[j]);
                assert(comes_from_push(
                    outputs[j],
                    resampler.previous_frame,
                    samples,
                    channels,
                    count - 1,
                ));
                let index = choose|index: int|
                    0 <= index < count - 1 && #[trigger] stands_in_push(
                        outputs[j],
                        resampler.previous_frame,
                        samples,
                        channels,
                        index,
                    );
                assert(stands_in_push(
                    all[j],
                    resampler.previous_frame,
                    samples,
                    channels,
                    index,
                ));
            } else {
                assert(all[j] == more[j - outputs.len()]);
                assert(stands_in_push(
                    all[j],
                    resampler.previous_frame,
                    samples,
                    channels,
                    count - 1,
                ));
            }
        }
    }
}

/// In a stream of two channels the left side of every output frame comes from the samples
/// with an even number, and the right side from the ones behind them.
pub proof fn law_two_channels_keep_their_sides(rate: u32, samples: Seq<i16>, count: int)
    requires
        rate > 0,
        2 * count <= samples.len(),
        fresh_resampler(rate).can_take(count),
    ensures
        ({
            let outputs = fresh_resampler(rate).after_frames(samples, 2, count).1;
            forall|j: int|
                0 <= j < outputs.len() ==> exists|before: int, index: int|
                    #![trigger samples[2 * before], samples[2 * index]]
                    {
                        &&& 0 <= before <= index < count
                        &&& index - before <= 1
                        &&& (#[trigger] outputs[j]).previous.left == samples[2 * before]
                        &&& outputs[j].previous.right == samples[2 * before + 1]
                        &&& outputs[j].current.left == samples[2 * index]
                        &&& outputs[j].current.right == samples[2 * index + 1]
                    }
        }),
{
    let outputs = fresh_resampler(rate).after_frames(samples, 2, count).1;
    law_output_frames_stand_between_input_frames(rate, samples, 2, count);
    assert forall|j: int| 0 <= j < outputs.len() implies exists|before: int, index: int|
        #![trigger samples[2 * before], samples[2 * index]]
        {
            &&& 0 <= before <= index < count
            &&& index - before <= 1
            &&& (#[trigger] outputs[j]).previous.left == samples[2 * before]
            &&& outputs[j].previous.right == samples[2 * before + 1]
            &&& outputs[j].current.left == samples[2 * index]
            &&& outputs[j].current.right == samples[2 * index + 1]
        } by {
        assert(stands_in(outputs[j], samples, 2, count, rate * j));
        let index = choose|index: int|
            0 <= index < count && #[trigger] stands_at(outputs[j], samples, 2, index, rate * j);
        let before = if index == 0 {
            0
        } else {
            index - 1
        };
        assert(outputs[j].previous.left == samples[2 * before]);
        assert(outputs[j].current.left == samples[2 * index]);
    }
}

/// A stream of two channels at the rate of the output comes out as it is: output frame
/// number `i` stands on input frame number `i`, whose sides are samples `2 * i` and
/// `2 * i + 1`.
pub proof fn law_streams_at_the_output_rate_are_kept(samples: Seq<i16>, count: int)
    requires
        1 <= count,
        2 * count <= samples.len(),
        fresh_resampler(22050).can_take(count),
    ensures
        ({
            let outputs = fresh_resampler(22050).after_frames(samples, 2, count).1;
            &&& outputs.len() == count
            &&& forall|i: int|
                0 <= i < count ==> {
                    &&& (#[trigger] outputs[i]).current.left == samples[2 * i]
                    &&& outputs[i].current.right == samples[2 * i + 1]
                    &&& outputs[i].offset == 22050 || outputs[i].previous == outputs[i].current
                }
        }),
{
    let outputs = fresh_resampler(22050).after_frames(samples, 2, count).1;
    law_output_frames_stand_between_input_frames(22050, samples, 2, count);
    lemma_stream(22050, samples, 2, count);
    assert forall|i: int| 0 <= i < count implies {
        &&& (#[trigger] outputs[i]).current.left == samples[2 * i]
        &&& outputs[i].current.right == samples[2 * i + 1]
        &&& outputs[i].offset == 22050 || outputs[i].previous == outputs[i].current
    } by {
        assert(stands_in(outputs[i], samples, 2, count, 22050 * i));
        let index = choose|index: int|
            0 <= index < count && #[trigger] stands_at(outputs[i], samples, 2, index, 22050 * i);
        assert(index == i);
    }
}

/// A video frame takes its part of a second of sound, and what is left of it is carried
/// over. The samples that waited come out in their order, and silence behind them.
pub proof fn law_video_frames_take_sound(before: Audio, after: Audio, samples: Seq<i16>)
    requires
        frame_taken(before, after, samples),
    ensures
        samples.len() % 2 == 0,
        after.output_frame_remainder < 60,
        60 * (samples.len() / 2) + after.output_frame_remainder == before.output_frame_remainder
            + 22050,
        ({
            let waiting = before.pending_samples@;
            let left = after.pending_samples@;
            &&& samples.len() <= waiting.len() ==> samples + left == waiting
            &&& samples.len() >= waiting.len() ==> left.len() == 0 && samples.take(
                waiting.len() as int,
            ) == waiting && forall|i: int|
                waiting.len() <= i < samples.len() ==> #[trigger] samples[i] == 0
        }),
{
    let waiting = before.pending_samples@;
    let left = after.pending_samples@;
    if samples.len() <= waiting.len() {
        assert(samples + left =~= waiting);
    }
    if samples.len() >= waiting.len() {
        assert(samples.take(waiting.len() as int) =~= waiting);
        assert(left.len() == 0);
    }
}

/// Guest data is heard where output is open, neither muted nor at volume zero, and less
/// than half a second waits. What cannot be heard is taken all the same, and data without
/// a whole frame is not.
pub proof fn law_sound_that_is_taken(
    before: Audio,
    after: Audio,
    data: Seq<u8>,
    result: AudioWrite,
)
    requires
        written(before, after, data, result),
        before.config matches Some(config) ==> config.valid(),
    ensures
        ({
            let frame_size = match before.config {
                Some(config) => config.channels * (if config.format is U8 {
                    1int
                } else {
                    2int
                }),
                None => 1,
            };
            let audible = !before.muted && before.volume > 0;
            let some = before.config is Some && data.len() > 0;
            &&& result is Silent <==> some && !audible
            &&& result is Render <==> some && audible && data.len() >= frame_size
                && before.pending_samples@.len() < 22050
        }),
        !(result is Render) ==> after.resampler == before.resampler,
        after.pending_samples@ == before.pending_samples@,
{
    if let Some(config) = before.config {
        match config.format {
            SampleFormat::U8 => law_bytes_are_decoded(data, config.channels),
            SampleFormat::S16Le => law_pairs_of_bytes_are_decoded(data, config.channels),
        }
        let samples = pcm_samples(data, config.format, config.channels);
        assert(samples.len() > 0 ==> samples.len() >= config.channels) by (nonlinear_arith)
            requires
                config.channels >= 1,
                samples.len() % config.channels as nat == 0,
        ;
        assert(config.channels * 1 == config.channels) by (nonlinear_arith);
        assert(config.channels * 2 == 2 * config.channels) by (nonlinear_arith);
    }
}

/// A guest volume up to 100 is a part of 100, a larger one a part of 255; the master
/// volume counts besides, and what is muted is not heard.
pub proof fn law_volumes(volume: u8, master_volume: u8, muted: bool)
    ensures
        ({
            let ratio = volume_ratio(volume, master_volume, muted);
            &&& 0 <= ratio.volume <= ratio.full_scale
            &&& ratio.master_percent == master_volume
            &&& muted ==> ratio.volume == 0
            &&& !muted ==> ratio.volume == volume
            &&& !muted && volume <= 100 ==> ratio.full_scale == 100
            &&& volume > 100 && !muted ==> ratio.full_scale == 255
        }),
{
}

/// Without a device, sound that waits is counted in sixtieths of a frame: less than half a
/// second of it may wait before more is taken, and each video frame lets a sixtieth of a
/// second pass. With one, fewer than four buffers may wait.
pub proof fn law_sound_waits_without_a_device(
    before: HostAudio,
    after: HostAudio,
    data: Seq<u8>,
    queued_buffers: Option<usize>,
    result: HostWrite,
)
    requires
        before.written(after, data, queued_buffers, result),
        before.config matches Some(config) && config.valid(),
        !before.muted,
        before.volume > 0,
        before.virtual_buffered_frame_units + 60 * data.len() <= u64::MAX,
    ensures
        ({
            let config = before.config->0;
            let bytes = if config.format is U8 {
                1int
            } else {
                2int
            };
            let frame_size = config.channels * bytes;
            let more = after.virtual_buffered_frame_units - before.virtual_buffered_frame_units;
            let waiting = 2 * before.virtual_buffered_frame_units;
            &&& !before.host_output_enabled && data.len() >= frame_size && waiting < 60
                * config.sample_rate ==> {
                &&& result is Accepted
                &&& more % 60 == 0
                &&& (more / 60) * frame_size <= data.len() < (more / 60 + 1) * frame_size
            }
            &&& !before.host_output_enabled && waiting >= 60 * config.sample_rate ==> result is Rejected
                && more == 0
            &&& before.host_output_enabled ==> more == 0
            &&& before.host_output_enabled && data.len() >= frame_size && queued_buffers is Some
                && queued_buffers->0 < 4 ==> result is Play && result->Play_0@ == pcm_samples(
                data,
                config.format,
                config.channels,
            )
            &&& before.host_output_enabled && queued_buffers is Some && queued_buffers->0 >= 4
                ==> result is Rejected
            &&& data.len() == 0 ==> result is Rejected && more == 0
        }),
{
    let config = before.config->0;
    let channels = config.channels as int;
    match config.format {
        SampleFormat::U8 => law_bytes_are_decoded(data, config.channels),
        SampleFormat::S16Le => law_pairs_of_bytes_are_decoded(data, config.channels),
    }
    let samples = pcm_samples(data, config.format, config.channels);
    let frames = samples.len() as int / channels;
    assert(samples.len() == frames * channels && frames <= samples.len()) by (nonlinear_arith)
        requires
            channels >= 1,
            samples.len() as int % channels == 0,
            frames == samples.len() as int / channels,
    ;
    assert(channels * 1 == channels && channels * 2 == 2 * channels) by (nonlinear_arith);
    assert(samples.len() > 0 ==> samples.len() >= channels) by (nonlinear_arith)
        requires
            channels >= 1,
            samples.len() as int % channels == 0,
    ;
    assert(frames * (channels * 1) == frames * channels && (frames + 1) * (channels * 1) == frames
        * channels + channels && frames * (channels * 2) == 2 * (frames * channels) && (frames + 1)
        * (channels * 2) == 2 * (frames * channels) + 2 * channels) by (nonlinear_arith);
}

/// A volume that is set is kept as it is, up to the largest: 255 for the guest's, and a
/// hundred percent for the master volume.
pub proof fn law_volumes_are_limited(volume: u32, percent: u8)
    ensures
        guest_volume(volume) <= volume,
        guest_volume(volume) == volume <==> volume <= 255,
        volume > 255 ==> guest_volume(volume) == 255,
        master_percent(percent) <= percent,
        master_percent(percent) == percent <==> percent <= 100,
        percent > 100 ==> master_percent(percent) == 100,
{
}

/// A video frame lets a sixtieth of a second of waiting sound pass, where there is no
/// device, and changes nothing else.
pub proof fn law_waiting_sound_passes(audio: HostAudio)
    ensures
        ({
            let after = frame_passed(audio);
            let rate = audio.config->0.sample_rate;
            let waiting = audio.virtual_buffered_frame_units;
            let left = after.virtual_buffered_frame_units;
            &&& after == (HostAudio { virtual_buffered_frame_units: left, ..audio })
            &&& audio.host_output_enabled || audio.config is None ==> left == waiting
            &&& !audio.host_output_enabled && audio.config is Some ==> {
                &&& waiting >= rate ==> left + rate == waiting
                &&& waiting < rate ==> left == 0
            }
        }),
{
}

} // verus!
