//! Guest PCM audio: configuration, volume, back-pressure and pacing.
//!
//! The library works on integer samples and says which of them to interpolate;
//! turning those into output samples is floating-point work of the host.

use std::collections::VecDeque;
use vstd::prelude::*;

verus! {

/// Frames per second that the frontend receives.
pub const OUTPUT_SAMPLE_RATE: u32 = 22_050;

/// Video frames per second.
pub const VIDEO_FRAMES_PER_SECOND: u32 = 60;

/// Output frames that may wait before the guest has to.
pub const MAX_QUEUED_AUDIO_FRAMES: usize = 11_025;

/// Encoding of guest samples.
#[derive(Clone, Copy, Debug, PartialEq, Eq, Structural)]
pub enum SampleFormat {
    U8,
    S16Le,
}

impl SampleFormat {
    /// The encoding that an SDK value stands for.
    pub fn from_sdk_value(value: u16) -> (format: Option<SampleFormat>)
        ensures
            format == if value == 8 {
                Some(SampleFormat::U8)
            } else if value == 16 {
                Some(SampleFormat::S16Le)
            } else {
                None
            },
    {
        match value {
            8 => Some(SampleFormat::U8),
            16 => Some(SampleFormat::S16Le),
            _ => None,
        }
    }
}

/// What the guest opened audio output with.
#[derive(Clone, Copy, Debug, PartialEq, Eq, Structural)]
pub struct AudioConfig {
    pub sample_rate: u32,
    pub format: SampleFormat,
    pub channels: u8,
    pub volume: u8,
}

impl AudioConfig {
    /// Whether output can be opened like this.
    pub open spec fn valid(&self) -> bool {
        self.sample_rate > 0 && 1 <= self.channels <= 2
    }

    /// A configuration, where the values can be used.
    pub fn new(sample_rate: u32, format: u16, channels: u8, volume: u8) -> (config: Option<
        AudioConfig,
    >)
        ensures
            config is Some <==> sample_rate > 0 && 1 <= channels <= 2 && (format == 8 || format
                == 16),
            config matches Some(config) ==> config.valid() && config == (AudioConfig {
                sample_rate,
                format: if format == 8 {
                    SampleFormat::U8
                } else {
                    SampleFormat::S16Le
                },
                channels,
                volume,
            }),
    {
        if sample_rate == 0 || channels < 1 || channels > 2 {
            return None;
        }
        match SampleFormat::from_sdk_value(format) {
            Some(format) => Some(AudioConfig { sample_rate, format, channels, volume }),
            None => None,
        }
    }
}

/// A volume as a quotient: guest volume over its full scale, times the master
/// volume in percent.
#[derive(Clone, Copy, Debug, PartialEq, Eq, Structural)]
pub struct VolumeRatio {
    pub volume: u8,
    pub full_scale: u8,
    pub master_percent: u8,
}

/// The guest volume that a number stands for: the largest one for a larger number.
pub open spec fn guest_volume(volume: u32) -> u8 {
    if volume > 255 {
        255
    } else {
        volume as u8
    }
}

/// The master volume in percent that a number stands for.
pub open spec fn master_percent(volume: u8) -> u8 {
    if volume > 100 {
        100
    } else {
        volume
    }
}

/// The volume to render with.
pub open spec fn volume_ratio(volume: u8, master_volume: u8, muted: bool) -> VolumeRatio {
    VolumeRatio {
        volume: if muted {
            0
        } else {
            volume
        },
        full_scale: if muted || volume <= 100 {
            100
        } else {
            255
        },
        master_percent: master_volume,
    }
}

/// The volume to render with.
pub fn rendering_volume(volume: u8, master_volume: u8, muted: bool) -> (ratio: VolumeRatio)
    ensures
        ratio == volume_ratio(volume, master_volume, muted),
{
    VolumeRatio {
        volume: if muted {
            0
        } else {
            volume
        },
        full_scale: if muted || volume <= 100 {
            100
        } else {
            255
        },
        master_percent: master_volume,
    }
}

/// One stereo frame of samples.
#[derive(Clone, Copy, Debug, PartialEq, Eq, Structural)]
pub struct Frame {
    pub left: i16,
    pub right: i16,
}

/// An output frame: this many output periods out of [`OUTPUT_SAMPLE_RATE`] on
/// the way from one input frame to the next.
#[derive(Clone, Copy, Debug, PartialEq, Eq, Structural)]
pub struct Interpolation {
    pub previous: Frame,
    pub current: Frame,
    pub offset: u64,
}

/// A guest sample on the scale of signed 16-bit samples.
pub open spec fn sample_at(data: Seq<u8>, format: SampleFormat, index: int) -> i16 {
    match format {
        SampleFormat::U8 => ((data[index] - 128) * 256) as i16,
        SampleFormat::S16Le => (data[2 * index] + 256 * data[2 * index + 1]) as u16 as i16,
    }
}

/// Number of whole samples in guest data.
pub open spec fn sample_count(data: Seq<u8>, format: SampleFormat) -> int {
    match format {
        SampleFormat::U8 => data.len() as int,
        SampleFormat::S16Le => data.len() as int / 2,
    }
}

/// Number of whole frames among a number of samples.
pub open spec fn frame_count(samples: int, channels: int) -> int {
    samples / channels
}

/// The samples of the whole frames in guest data.
pub open spec fn pcm_samples(data: Seq<u8>, format: SampleFormat, channels: u8) -> Seq<i16> {
    let count = sample_count(data, format);
    Seq::new(
        (count - count % channels as int) as nat,
        |i: int| sample_at(data, format, i),
    )
}

/// Decodes the whole frames in guest data.
pub fn decode_pcm(data: &[u8], format: SampleFormat, channels: u8) -> (samples: Vec<i16>)
    requires
        channels >= 1,
    ensures
        samples@ == pcm_samples(data@, format, channels),
{
    let count: usize = match format {
        SampleFormat::U8 => data.len(),
        SampleFormat::S16Le => data.len() / 2,
    };
    assert(0 <= count as int % channels as int <= count) by (nonlinear_arith)
        requires
            channels >= 1,
            count >= 0,
    ;
    let whole: usize = count - count % channels as usize;
    let mut samples: Vec<i16> = Vec::new();
    let mut index: usize = 0;
    let length: usize = data.len();
    while index < whole
        invariant
            index <= whole <= count,
            length == data@.len(),
            count == sample_count(data@, format),
            samples@.len() == index,
            forall|i: int| 0 <= i < index ==> samples@[i] == sample_at(data@, format, i),
        decreases whole - index,
    {
        let sample: i16 = match format {
            SampleFormat::U8 => (data[index] as i16 - 128) * 256,
            SampleFormat::S16Le => {
                assert(2 * index + 1 < data@.len());
                (data[2 * index] as u16 + 256 * (data[2 * index + 1] as u16)) as i16
            },
        };
        samples.push(sample);
        index = index + 1;
    }
    assert(samples@ =~= pcm_samples(data@, format, channels));
    samples
}

/// Converts a stream of input frames to the output rate.
#[derive(Clone, Copy, Debug, PartialEq, Eq, Structural)]
pub struct StreamingResampler {
    pub input_rate: u32,
    pub input_frames_seen: u64,
    pub next_output_time: u64,
    pub previous_frame: Option<Frame>,
}

/// Input frame number `index` of interleaved samples: its first two channels, or
/// its only one on both sides.
pub open spec fn frame_at(samples: Seq<i16>, channels: int, index: int) -> Frame {
    let first = channels * index;
    Frame {
        left: samples[first],
        right: samples[if channels >= 2 {
            first + 1
        } else {
            first
        }],
    }
}

/// Output frames from `time` on, up to the time of the current input frame.
pub open spec fn segment_outputs(
    previous: Frame,
    current: Frame,
    start: int,
    end: int,
    time: int,
    rate: int,
) -> Seq<Interpolation>
    decreases end + rate - time,
{
    if rate <= 0 || time > end {
        Seq::empty()
    } else {
        seq![Interpolation { previous, current, offset: (time - start) as u64 }]
            + segment_outputs(previous, current, start, end, time + rate, rate)
    }
}

/// Time of the first output frame behind the current input frame.
pub open spec fn time_after(end: int, time: int, rate: int) -> int
    decreases end + rate - time,
{
    if rate <= 0 || time > end {
        time
    } else {
        time_after(end, time + rate, rate)
    }
}

/// A resampler that has seen no input.
pub open spec fn fresh_resampler(input_rate: u32) -> StreamingResampler {
    StreamingResampler {
        input_rate,
        input_frames_seen: 0,
        next_output_time: 0,
        previous_frame: None,
    }
}

impl StreamingResampler {
    /// Whether the times of so many more input frames stay in range, and come to an
    /// end. A resampler that has seen input since it was set up can take as many as
    /// its clock counts; one that was restored from elsewhere may be out of step.
    pub open spec fn can_take(self, frames: int) -> bool {
        let rate = self.input_rate as int;
        let last = self.input_frames_seen + frames - 1;
        let (first, time) = match self.previous_frame {
            Some(_) => (self.input_frames_seen as int, self.next_output_time as int),
            None => (self.input_frames_seen + 1, rate),
        };
        frames <= 0 || {
            &&& last * OUTPUT_SAMPLE_RATE + rate <= u64::MAX
            &&& first <= last ==> {
                &&& 1 <= first
                &&& (first - 1) * OUTPUT_SAMPLE_RATE <= time
                &&& rate > 0 || last * OUTPUT_SAMPLE_RATE < time
            }
        }
    }

    /// Whether the times of so many more input frames stay in range.
    pub fn has_time_for(&self, frames: usize) -> (result: bool)
        ensures
            result == self.can_take(frames as int),
    {
        if frames == 0 {
            return true;
        }
        let rate: u128 = self.input_rate as u128;
        let last: u128 = self.input_frames_seen as u128 + frames as u128 - 1;
        assert(last <= 2 * 0x1_0000_0000_0000_0000);
        let end: u128 = last * 22_050;
        let (first, time): (u128, u128) = match self.previous_frame {
            Some(_) => (self.input_frames_seen as u128, self.next_output_time as u128),
            None => (self.input_frames_seen as u128 + 1, rate),
        };
        end + rate <= u64::MAX as u128 && (first > last || (1 <= first && (first - 1)
            * 22_050 <= time && (rate > 0 || end < time)))
    }

    /// The resampler and the output frames after one more input frame.
    pub open spec fn after_frame(self, current: Frame) -> (StreamingResampler, Seq<Interpolation>) {
        let index = self.input_frames_seen as int;
        let rate = self.input_rate as int;
        match self.previous_frame {
            None => (
                StreamingResampler {
                    next_output_time: self.input_rate as u64,
                    previous_frame: Some(current),
                    input_frames_seen: (index + 1) as u64,
                    ..self
                },
                seq![Interpolation { previous: current, current, offset: 0 }],
            ),
            Some(previous) => {
                let start = (index - 1) * OUTPUT_SAMPLE_RATE;
                let end = index * OUTPUT_SAMPLE_RATE;
                (
                    StreamingResampler {
                        next_output_time: time_after(end, self.next_output_time as int, rate)
                            as u64,
                        previous_frame: Some(current),
                        input_frames_seen: (index + 1) as u64,
                        ..self
                    },
                    segment_outputs(
                        previous,
                        current,
                        start,
                        end,
                        self.next_output_time as int,
                        rate,
                    ),
                )
            },
        }
    }

    /// The resampler and the output frames after the first `count` input frames.
    pub open spec fn after_frames(self, samples: Seq<i16>, channels: int, count: int) -> (
        StreamingResampler,
        Seq<Interpolation>,
    )
        decreases count,
    {
        if count <= 0 {
            (self, Seq::empty())
        } else {
            let (earlier, outputs) = self.after_frames(samples, channels, count - 1);
            let (after, more) = earlier.after_frame(frame_at(samples, channels, count - 1));
            (after, outputs + more)
        }
    }

    /// A resampler that saw nothing yet.
    pub fn new(input_rate: u32) -> (resampler: StreamingResampler)
        ensures
            resampler == fresh_resampler(input_rate),
    {
        StreamingResampler {
            input_rate,
            input_frames_seen: 0,
            next_output_time: 0,
            previous_frame: None,
        }
    }

    fn push_frame(&mut self, current: Frame, outputs: &mut Vec<Interpolation>)
        requires
            old(self).can_take(1),
        ensures
            *final(self) == old(self).after_frame(current).0,
            final(outputs)@ == old(outputs)@ + old(self).after_frame(current).1,
    {
        let index: u64 = self.input_frames_seen;
        let rate: u64 = self.input_rate as u64;
        match self.previous_frame {
            None => {
                outputs.push(Interpolation { previous: current, current, offset: 0 });
                self.next_output_time = rate;
                assert(outputs@ =~= old(outputs)@ + old(self).after_frame(current).1);
            },
            Some(previous) => {
                let start: u64 = (index - 1) * OUTPUT_SAMPLE_RATE as u64;
                let end: u64 = index * OUTPUT_SAMPLE_RATE as u64;
                let ghost first = self.next_output_time as int;
                let ghost all = segment_outputs(
                    previous,
                    current,
                    start as int,
                    end as int,
                    first,
                    rate as int,
                );
                assert(outputs@ + all =~= old(outputs)@ + all);
                while self.next_output_time <= end
                    invariant
                        rate == self.input_rate,
                        rate > 0 || end < self.next_output_time,
                        start <= self.next_output_time,
                        end + rate <= u64::MAX,
                        self.input_rate == old(self).input_rate,
                        self.input_frames_seen == old(self).input_frames_seen,
                        self.previous_frame == old(self).previous_frame,
                        outputs@ + segment_outputs(
                            previous,
                            current,
                            start as int,
                            end as int,
                            self.next_output_time as int,
                            rate as int,
                        ) == old(outputs)@ + all,
                        time_after(end as int, self.next_output_time as int, rate as int)
                            == time_after(end as int, first, rate as int),
                    decreases end + rate - self.next_output_time,
                {
                    let ghost before = outputs@;
                    let ghost time = self.next_output_time as int;
                    outputs.push(
                        Interpolation { previous, current, offset: self.next_output_time - start },
                    );
                    self.next_output_time = self.next_output_time + rate;
                    assert(before + segment_outputs(
                        previous,
                        current,
                        start as int,
                        end as int,
                        time,
                        rate as int,
                    ) =~= outputs@ + segment_outputs(
                        previous,
                        current,
                        start as int,
                        end as int,
                        time + rate,
                        rate as int,
                    ));
                }
                assert(outputs@ + Seq::<Interpolation>::empty() =~= outputs@);
            },
        }
        self.previous_frame = Some(current);
        self.input_frames_seen = index + 1;
    }

    /// Takes interleaved samples. Returns the output frames that they complete.
    pub fn push(&mut self, samples: &[i16], channels: usize) -> (outputs: Vec<Interpolation>)
        requires
            channels >= 1,
            old(self).can_take(frame_count(samples@.len() as int, channels as int)),
        ensures
            ({
                let (after, expected) = old(self).after_frames(
                    samples@,
                    channels as int,
                    frame_count(samples@.len() as int, channels as int),
                );
                &&& *final(self) == after
                &&& outputs@ == expected
            }),
    {
        let mut outputs: Vec<Interpolation> = Vec::new();
        let count: usize = samples.len() / channels;
        let mut index: usize = 0;
        let length: usize = samples.len();
        assert(outputs@ =~= Seq::<Interpolation>::empty());
        assert(channels * count <= length) by (nonlinear_arith)
            requires
                channels >= 1,
                count == length / channels,
        ;
        while index < count
            invariant
                index <= count,
                channels >= 1,
                length == samples@.len(),
                channels * count <= length,
                self.can_take(count - index),
                old(self).after_frames(samples@, channels as int, index as int) == (
                    *self,
                    outputs@,
                ),
            decreases count - index,
        {
            assert(channels * index + channels <= length) by (nonlinear_arith)
                requires
                    index < count,
                    channels * count <= length,
            ;
            let place: usize = channels * index;
            let current = Frame {
                left: samples[place],
                right: samples[if channels >= 2 {
                    place + 1
                } else {
                    place
                }],
            };
            assert(current == frame_at(samples@, channels as int, index as int));
            proof {
                lemma_can_take_rest(*self, current, count - index);
            }
            self.push_frame(current, &mut outputs);
            index = index + 1;
        }
        outputs
    }
}

proof fn lemma_can_take_rest(resampler: StreamingResampler, current: Frame, frames: int)
    requires
        resampler.can_take(frames),
        1 <= frames,
    ensures
        resampler.can_take(1),
        resampler.after_frame(current).0.can_take(frames - 1),
{
    let seen = resampler.input_frames_seen as int;
    let rate = resampler.input_rate as int;
    let end = seen * OUTPUT_SAMPLE_RATE;
    let time = resampler.next_output_time as int;
    if resampler.previous_frame is Some && rate > 0 && time <= end {
        lemma_segment(
            resampler.previous_frame->0,
            current,
            (seen - 1) * OUTPUT_SAMPLE_RATE,
            end,
            time,
            rate,
        );
    }
}

// The resampled stream as a whole.

proof fn lemma_segment(
    previous: Frame,
    current: Frame,
    start: int,
    end: int,
    time: int,
    rate: int,
)
    requires
        rate > 0,
        time <= end + rate,
    ensures
        time_after(end, time, rate) == time + rate * segment_outputs(
            previous,
            current,
            start,
            end,
            time,
            rate,
        ).len(),
        end < time_after(end, time, rate) <= end + rate,
    decreases end + rate - time,
{
    let outputs = segment_outputs(previous, current, start, end, time, rate);
    if time <= end {
        lemma_segment(previous, current, start, end, time + rate, rate);
        let rest = segment_outputs(previous, current, start, end, time + rate, rate);
        assert(outputs.len() == rest.len() + 1);
        assert(rate * (rest.len() + 1) == rate * rest.len() + rate) by (nonlinear_arith);
    } else {
        assert(rate * outputs.len() == 0) by (nonlinear_arith)
            requires
                outputs.len() == 0,
        ;
    }
}

/// Where a stream of input frames stands: the next output frame is the one behind
/// those that came out.
pub proof fn lemma_stream(rate: u32, samples: Seq<i16>, channels: int, count: int)
    requires
        rate > 0,
        1 <= count,
        fresh_resampler(rate).can_take(count),
    ensures
        ({
            let (after, outputs) = fresh_resampler(rate).after_frames(samples, channels, count);
            &&& after.input_rate == rate
            &&& after.input_frames_seen == count
            &&& after.previous_frame == Some(frame_at(samples, channels, count - 1))
            &&& after.next_output_time == rate * outputs.len()
            &&& (count - 1) * OUTPUT_SAMPLE_RATE < after.next_output_time
            &&& after.next_output_time <= (count - 1) * OUTPUT_SAMPLE_RATE + rate
        }),
    decreases count,
{
    let fresh = fresh_resampler(rate);
    let (earlier, outputs) = fresh.after_frames(samples, channels, count - 1);
    let current = frame_at(samples, channels, count - 1);
    let (after, more) = earlier.after_frame(current);
    if count == 1 {
        assert((outputs + more).len() == 1);
        assert(rate * (outputs + more).len() == rate) by (nonlinear_arith)
            requires
                (outputs + more).len() == 1,
        ;
    } else {
        lemma_stream(rate, samples, channels, count - 1);
        let start = (count - 2) * OUTPUT_SAMPLE_RATE;
        let end = (count - 1) * OUTPUT_SAMPLE_RATE;
        lemma_segment(
            earlier.previous_frame->0,
            current,
            start,
            end,
            earlier.next_output_time as int,
            rate as int,
        );
        assert(rate * (outputs.len() + more.len()) == rate * outputs.len() + rate * more.len())
            by (nonlinear_arith);
    }
}

/// From the first input frame on, a stream that is resampled has as many output
/// frames as output periods have begun up to its last input frame.
pub proof fn law_resampling_keeps_the_rate(
    rate: u32,
    samples: Seq<i16>,
    channels: int,
    count: int,
)
    requires
        rate > 0,
        1 <= count,
        fresh_resampler(rate).can_take(count),
    ensures
        fresh_resampler(rate).after_frames(samples, channels, count).1.len() == (count - 1)
            * OUTPUT_SAMPLE_RATE / rate as int + 1,
{
    lemma_stream(rate, samples, channels, count);
    let produced = fresh_resampler(rate).after_frames(samples, channels, count).1.len() as int;
    let time = (count - 1) * OUTPUT_SAMPLE_RATE;
    assert(time / rate as int == produced - 1) by (nonlinear_arith)
        requires
            rate > 0,
            time < rate * produced <= time + rate,
    ;
}

/// Pieces of input, one behind the other.
pub open spec fn whole_input(pieces: Seq<Seq<i16>>) -> Seq<i16>
    decreases pieces.len(),
{
    if pieces.len() == 0 {
        Seq::empty()
    } else {
        whole_input(pieces.drop_last()) + pieces.last()
    }
}

/// The resampler and the output frames after pieces of input, taken one by one.
pub open spec fn after_pieces(
    resampler: StreamingResampler,
    pieces: Seq<Seq<i16>>,
    channels: int,
) -> (StreamingResampler, Seq<Interpolation>)
    decreases pieces.len(),
{
    if pieces.len() == 0 {
        (resampler, Seq::empty())
    } else {
        let (earlier, outputs) = after_pieces(resampler, pieces.drop_last(), channels);
        let (after, more) = earlier.after_frames(
            pieces.last(),
            channels,
            frame_count(pieces.last().len() as int, channels),
        );
        (after, outputs + more)
    }
}

/// However input is cut into pieces of whole frames, the same output comes of it: the
/// pieces one after the other leave the resampler, and give the output, that they do
/// in one.
pub proof fn law_cuts_do_not_matter(
    resampler: StreamingResampler,
    pieces: Seq<Seq<i16>>,
    channels: int,
)
    requires
        1 <= channels,
        forall|i: int| 0 <= i < pieces.len() ==> (#[trigger] pieces[i]).len() as int % channels == 0,
    ensures
        whole_input(pieces).len() as int % channels == 0,
        after_pieces(resampler, pieces, channels) == resampler.after_frames(
            whole_input(pieces),
            channels,
            frame_count(whole_input(pieces).len() as int, channels),
        ),
    decreases pieces.len(),
{
    if pieces.len() == 0 {
        assert(0int / channels == 0 && 0int % channels == 0) by (nonlinear_arith)
            requires
                1 <= channels,
        ;
    } else {
        let earlier = pieces.drop_last();
        let last = pieces[pieces.len() - 1];
        assert forall|i: int| 0 <= i < earlier.len() implies (#[trigger] earlier[i]).len() as int
            % channels == 0 by {
            assert(earlier[i] == pieces[i]);
        }
        law_cuts_do_not_matter(resampler, earlier, channels);
        lemma_two_pieces(resampler, whole_input(earlier), last, channels);
        let begun = whole_input(earlier).len() as int;
        let more = last.len() as int;
        vstd::arithmetic::div_mod::lemma_add_mod_noop(begun, more, channels);
        assert((begun + more) % channels == 0);
    }
}

/// A stream of input with a rate, however it is cut into pieces of whole frames, has
/// as many output frames as output periods have begun up to its last input frame. In
/// a stream of one channel, both sides of each of them are the same.
pub proof fn law_streams_are_resampled(rate: u32, pieces: Seq<Seq<i16>>, channels: int)
    requires
        rate > 0,
        1 <= channels,
        forall|i: int| 0 <= i < pieces.len() ==> (#[trigger] pieces[i]).len() as int % channels == 0,
        1 <= frame_count(whole_input(pieces).len() as int, channels),
        fresh_resampler(rate).can_take(frame_count(whole_input(pieces).len() as int, channels)),
    ensures
        ({
            let outputs = after_pieces(fresh_resampler(rate), pieces, channels).1;
            let count = frame_count(whole_input(pieces).len() as int, channels);
            &&& outputs.len() == (count - 1) * OUTPUT_SAMPLE_RATE / rate as int + 1
            &&& channels == 1 ==> forall|i: int|
                0 <= i < outputs.len() ==> is_centred((#[trigger] outputs[i]).previous)
                    && is_centred(outputs[i].current)
        }),
{
    let count = frame_count(whole_input(pieces).len() as int, channels);
    law_cuts_do_not_matter(fresh_resampler(rate), pieces, channels);
    law_resampling_keeps_the_rate(rate, whole_input(pieces), channels, count);
    law_one_channel_stays_in_the_middle(rate, whole_input(pieces), count);
}

proof fn lemma_two_pieces(
    resampler: StreamingResampler,
    first: Seq<i16>,
    second: Seq<i16>,
    channels: int,
)
    requires
        1 <= channels,
        first.len() as int % channels == 0,
    ensures
        ({
            let (between, earlier) = resampler.after_frames(
                first,
                channels,
                frame_count(first.len() as int, channels),
            );
            let (after, later) = between.after_frames(
                second,
                channels,
                frame_count(second.len() as int, channels),
            );
            resampler.after_frames(
                first + second,
                channels,
                frame_count((first + second).len() as int, channels),
            ) == (after, earlier + later)
        }),
{
    let begun = first.len() as int;
    let more = second.len() as int;
    assert((begun + more) / channels == begun / channels + more / channels) by (nonlinear_arith)
        requires
            1 <= channels,
            begun % channels == 0,
    ;
    lemma_second_piece(
        resampler,
        first,
        second,
        channels,
        frame_count(second.len() as int, channels),
    );
}

proof fn lemma_first_piece(
    resampler: StreamingResampler,
    first: Seq<i16>,
    second: Seq<i16>,
    channels: int,
    count: int,
)
    requires
        1 <= channels,
        0 <= count <= frame_count(first.len() as int, channels),
    ensures
        resampler.after_frames(first + second, channels, count) == resampler.after_frames(
            first,
            channels,
            count,
        ),
    decreases count,
{
    if count > 0 {
        lemma_first_piece(resampler, first, second, channels, count - 1);
        assert(0 <= channels * (count - 1) && channels * (count - 1) + channels <= first.len())
            by (nonlinear_arith)
            requires
                1 <= channels,
                1 <= count <= first.len() as int / channels,
        ;
        assert(frame_at(first + second, channels, count - 1) == frame_at(
            first,
            channels,
            count - 1,
        ));
    }
}

proof fn lemma_second_piece(
    resampler: StreamingResampler,
    first: Seq<i16>,
    second: Seq<i16>,
    channels: int,
    count: int,
)
    requires
        1 <= channels,
        first.len() as int % channels == 0,
        0 <= count <= frame_count(second.len() as int, channels),
    ensures
        ({
            let begun = frame_count(first.len() as int, channels);
            let (between, earlier) = resampler.after_frames(first, channels, begun);
            let (after, later) = between.after_frames(second, channels, count);
            resampler.after_frames(first + second, channels, begun + count) == (
                after,
                earlier + later,
            )
        }),
    decreases count,
{
    let begun = frame_count(first.len() as int, channels);
    let (between, earlier) = resampler.after_frames(first, channels, begun);
    if count == 0 {
        lemma_first_piece(resampler, first, second, channels, begun);
        assert(earlier + Seq::<Interpolation>::empty() =~= earlier);
    } else {
        lemma_second_piece(resampler, first, second, channels, count - 1);
        let (shorter, most) = between.after_frames(second, channels, count - 1);
        let current = frame_at(second, channels, count - 1);
        let place = channels * (count - 1);
        assert(0 <= place && place + channels <= second.len()) by (nonlinear_arith)
            requires
                1 <= channels,
                1 <= count <= second.len() as int / channels,
                place == channels * (count - 1),
        ;
        assert(channels * (begun + count - 1) == first.len() + place) by (nonlinear_arith)
            requires
                1 <= channels,
                first.len() as int % channels == 0,
                begun == first.len() as int / channels,
                place == channels * (count - 1),
        ;
        assert(frame_at(first + second, channels, begun + count - 1) == current);
        let more = shorter.after_frame(current).1;
        assert((earlier + most) + more =~= earlier + (most + more));
    }
}

/// Whether both channels of a frame are the same.
pub open spec fn is_centred(frame: Frame) -> bool {
    frame.left == frame.right
}

/// In a stream of one channel, both sides of every output frame are the same.
pub proof fn law_one_channel_stays_in_the_middle(rate: u32, samples: Seq<i16>, count: int)
    ensures
        ({
            let (after, outputs) = fresh_resampler(rate).after_frames(samples, 1, count);
            &&& after.previous_frame matches Some(frame) ==> is_centred(frame)
            &&& forall|i: int|
                0 <= i < outputs.len() ==> is_centred((#[trigger] outputs[i]).previous)
                    && is_centred(outputs[i].current)
        }),
    decreases count,
{
    if count > 0 {
        law_one_channel_stays_in_the_middle(rate, samples, count - 1);
        let earlier = fresh_resampler(rate).after_frames(samples, 1, count - 1).0;
        let current = frame_at(samples, 1, count - 1);
        if let Some(previous) = earlier.previous_frame {
            lemma_segment_frames(
                previous,
                current,
                (earlier.input_frames_seen - 1) * OUTPUT_SAMPLE_RATE,
                earlier.input_frames_seen * OUTPUT_SAMPLE_RATE,
                earlier.next_output_time as int,
                earlier.input_rate as int,
            );
        }
    }
}

pub proof fn lemma_segment_frames(
    previous: Frame,
    current: Frame,
    start: int,
    end: int,
    time: int,
    rate: int,
)
    ensures
        forall|i: int|
            0 <= i < segment_outputs(previous, current, start, end, time, rate).len() ==> (
            #[trigger] segment_outputs(previous, current, start, end, time, rate)[i]).previous
                == previous && segment_outputs(
                previous,
                current,
                start,
                end,
                time,
                rate,
            )[i].current == current,
    decreases end + rate - time,
{
    if rate > 0 && time <= end {
        lemma_segment_frames(previous, current, start, end, time + rate, rate);
        let rest = segment_outputs(previous, current, start, end, time + rate, rate);
        let outputs = segment_outputs(previous, current, start, end, time, rate);
        assert forall|i: int| 0 <= i < outputs.len() implies (#[trigger] outputs[i]).previous
            == previous && outputs[i].current == current by {
            if i > 0 {
                assert(outputs[i] == rest[i - 1]);
            }
        }
    }
}

/// What becomes of guest data.
#[derive(Debug)]
pub enum AudioWrite {
    /// It is not accepted; the guest may retry.
    Rejected,
    /// It is accepted and inaudible.
    Silent,
    /// It is accepted and completes these output frames.
    Render(Vec<Interpolation>),
}

/// Audio output through a frontend.
pub struct Audio {
    pub config: Option<AudioConfig>,
    pub volume: u8,
    pub master_volume: u8,
    pub muted: bool,
    pub pending_samples: VecDeque<i16>,
    pub output_frame_remainder: u32,
    pub resampler: StreamingResampler,
}

/// Output frames due in the next video frame, with a remainder carried over.
pub open spec fn frames_due(remainder: u32) -> int {
    (remainder + OUTPUT_SAMPLE_RATE) as int / VIDEO_FRAMES_PER_SECOND as int
}

/// The remainder to carry over behind the next video frame.
pub open spec fn remainder_after(remainder: u32) -> u32 {
    ((remainder + OUTPUT_SAMPLE_RATE) % VIDEO_FRAMES_PER_SECOND as int) as u32
}

/// Output frames due in a number of video frames.
pub open spec fn frames_in(remainder: u32, video_frames: nat) -> int
    decreases video_frames,
{
    if video_frames == 0 {
        0
    } else {
        frames_due(remainder) + frames_in(
            remainder_after(remainder),
            (video_frames - 1) as nat,
        )
    }
}

/// The remainder to carry over behind a number of video frames.
pub open spec fn remainder_in(remainder: u32, video_frames: nat) -> u32
    decreases video_frames,
{
    if video_frames == 0 {
        remainder
    } else {
        remainder_in(remainder_after(remainder), (video_frames - 1) as nat)
    }
}

proof fn lemma_pace(remainder: u32, video_frames: nat)
    requires
        remainder < VIDEO_FRAMES_PER_SECOND,
    ensures
        remainder_in(remainder, video_frames) < VIDEO_FRAMES_PER_SECOND,
        frames_in(remainder, video_frames) * VIDEO_FRAMES_PER_SECOND + remainder_in(
            remainder,
            video_frames,
        ) == remainder + video_frames * OUTPUT_SAMPLE_RATE,
    decreases video_frames,
{
    if video_frames > 0 {
        lemma_pace(remainder_after(remainder), (video_frames - 1) as nat);
    }
}

/// However video frames fall, one second of them takes one second of audio.
pub proof fn law_one_second_of_video_takes_one_second_of_audio(remainder: u32)
    requires
        remainder < VIDEO_FRAMES_PER_SECOND,
    ensures
        frames_in(remainder, VIDEO_FRAMES_PER_SECOND as nat) == OUTPUT_SAMPLE_RATE,
        remainder_in(remainder, VIDEO_FRAMES_PER_SECOND as nat) == remainder,
{
    lemma_pace(remainder, VIDEO_FRAMES_PER_SECOND as nat);
}

/// Whether one video frame of sound was taken: what waits, then silence.
pub open spec fn frame_taken(before: Audio, after: Audio, samples: Seq<i16>) -> bool {
    let due = 2 * frames_due(before.output_frame_remainder);
    let waiting = before.pending_samples@;
    &&& samples == Seq::new(
        due as nat,
        |i: int|
            if i < waiting.len() {
                waiting[i]
            } else {
                0
            },
    )
    &&& after.pending_samples@ == if due <= waiting.len() {
        waiting.skip(due)
    } else {
        Seq::empty()
    }
    &&& after.output_frame_remainder == remainder_after(before.output_frame_remainder)
    &&& after.config == before.config
    &&& after.volume == before.volume
    &&& after.master_volume == before.master_volume
    &&& after.muted == before.muted
    &&& after.resampler == before.resampler
}

/// Whether the output was opened: nothing waits, and volume follows the guest.
pub open spec fn newly_opened(before: Audio, after: Audio, config: AudioConfig) -> bool {
    &&& after.config == Some(config)
    &&& after.volume == config.volume
    &&& after.master_volume == before.master_volume
    &&& after.muted == before.muted
    &&& after.pending_samples@.len() == 0
    &&& after.output_frame_remainder == 0
    &&& after.resampler == fresh_resampler(config.sample_rate)
}

/// What writing guest samples does.
pub open spec fn written(before: Audio, after: Audio, data: Seq<u8>, result: AudioWrite) -> bool {
    &&& after.config == before.config
    &&& after.volume == before.volume
    &&& after.master_volume == before.master_volume
    &&& after.muted == before.muted
    &&& after.pending_samples@ == before.pending_samples@
    &&& after.output_frame_remainder == before.output_frame_remainder
    &&& match before.config {
        None => result is Rejected && after.resampler == before.resampler,
        Some(config) => {
            let samples = pcm_samples(data, config.format, config.channels);
            if data.len() == 0 {
                result is Rejected && after.resampler == before.resampler
            } else if before.muted || before.volume == 0 {
                result is Silent && after.resampler == before.resampler
            } else if !before.accepts() || samples.len() == 0 {
                result is Rejected && after.resampler == before.resampler
            } else {
                let (resampler, frames) = before.resampler.after_frames(
                    samples,
                    config.channels as int,
                    frame_count(samples.len() as int, config.channels as int),
                );
                &&& after.resampler == resampler
                &&& result matches AudioWrite::Render(output) && output@ == frames
            }
        },
    }
}

impl Audio {
    /// Whether guest data would be taken without leaving what sound can count. Output
    /// that the guest opened can take data as long as the resampler counts it.
    pub open spec fn has_room(&self, data: Seq<u8>) -> bool {
        match self.config {
            Some(config) => data.len() == 0 || self.muted || self.volume == 0 || !self.accepts()
                || (config.channels >= 1 && self.resampler.can_take(
                frame_count(sample_count(data, config.format), config.channels as int),
            )),
            None => true,
        }
    }

    /// Whether guest data would be taken without leaving what sound can count.
    pub fn can_take(&self, data: &[u8]) -> (result: bool)
        ensures
            result == self.has_room(data@),
    {
        match self.config {
            Some(config) => {
                if data.len() == 0 || self.muted || self.volume == 0 || !self.can_write() {
                    return true;
                }
                if config.channels == 0 {
                    return false;
                }
                let count: usize = match config.format {
                    SampleFormat::U8 => data.len(),
                    SampleFormat::S16Le => data.len() / 2,
                };
                self.resampler.has_time_for(count / config.channels as usize)
            },
            None => true,
        }
    }

    /// Whether output was never opened or set up.
    pub open spec fn is_new(&self) -> bool {
        &&& self.config is None
        &&& self.volume == 100
        &&& self.master_volume == 100
        &&& !self.muted
        &&& self.pending_samples@.len() == 0
        &&& self.output_frame_remainder == 0
        &&& self.resampler == fresh_resampler(0)
    }

    /// Whether guest data would be accepted now.
    pub open spec fn accepts(&self) -> bool {
        self.config is None || self.muted || self.volume == 0 || self.pending_samples@.len() / 2
            < MAX_QUEUED_AUDIO_FRAMES
    }

    /// Closed output.
    pub fn new() -> (audio: Audio)
        ensures
            audio.is_new(),
    {
        Audio {
            config: None,
            volume: 100,
            master_volume: 100,
            muted: false,
            pending_samples: VecDeque::new(),
            output_frame_remainder: 0,
            resampler: StreamingResampler::new(0),
        }
    }

    /// Opens output, closing what was open before.
    pub fn open(&mut self, config: AudioConfig) -> (opened: bool)
        ensures
            opened,
            newly_opened(*old(self), *final(self), config),
    {
        let _ = self.close();
        self.volume = config.volume;
        self.config = Some(config);
        self.resampler = StreamingResampler::new(config.sample_rate);
        true
    }

    /// Closes output and drops what waits.
    pub fn close(&mut self) -> (closed: bool)
        ensures
            closed,
            final(self).config is None,
            final(self).volume == old(self).volume,
            final(self).master_volume == old(self).master_volume,
            final(self).muted == old(self).muted,
            final(self).pending_samples@.len() == 0,
            final(self).output_frame_remainder == 0,
            final(self).resampler == fresh_resampler(0),
    {
        self.pending_samples.clear();
        self.output_frame_remainder = 0;
        self.resampler = StreamingResampler::new(0);
        self.config = None;
        true
    }

    /// Whether guest data would be accepted now.
    pub fn can_write(&self) -> (result: bool)
        ensures
            result == self.accepts(),
    {
        if self.config.is_none() || self.muted || self.volume == 0 {
            return true;
        }
        self.pending_samples.len() / 2 < MAX_QUEUED_AUDIO_FRAMES
    }

    /// Takes guest data. Frames to render are handed back to [`Audio::queue`].
    pub fn write(&mut self, data: &[u8]) -> (result: AudioWrite)
        requires
            old(self).has_room(data@),
        ensures
            written(*old(self), *final(self), data@, result),
    {
        let config = match self.config {
            Some(config) => config,
            None => {
                return AudioWrite::Rejected;
            },
        };
        if data.len() == 0 {
            return AudioWrite::Rejected;
        }
        if self.muted || self.volume == 0 {
            return AudioWrite::Silent;
        }
        if !self.can_write() {
            return AudioWrite::Rejected;
        }
        let samples: Vec<i16> = decode_pcm(data, config.format, config.channels);
        if samples.len() == 0 {
            return AudioWrite::Rejected;
        }
        proof {
            let count = sample_count(data@, config.format);
            let channels = config.channels as int;
            assert(0 <= count % channels <= count && (count - count % channels) / channels == count
                / channels) by (nonlinear_arith)
                requires
                    channels >= 1,
                    count >= 0,
            ;
        }
        AudioWrite::Render(self.resampler.push(samples.as_slice(), config.channels as usize))
    }

    /// Appends rendered samples, left and right in turn.
    pub fn queue(&mut self, samples: &[i16])
        ensures
            final(self).pending_samples@ == old(self).pending_samples@ + samples@,
            final(self).config == old(self).config,
            final(self).volume == old(self).volume,
            final(self).master_volume == old(self).master_volume,
            final(self).muted == old(self).muted,
            final(self).output_frame_remainder == old(self).output_frame_remainder,
            final(self).resampler == old(self).resampler,
    {
        let mut index: usize = 0;
        assert(self.pending_samples@ =~= old(self).pending_samples@ + samples@.take(0));
        while index < samples.len()
            invariant
                index <= samples@.len(),
                self.pending_samples@ == old(self).pending_samples@ + samples@.take(index as int),
                self.config == old(self).config,
                self.volume == old(self).volume,
                self.master_volume == old(self).master_volume,
                self.muted == old(self).muted,
                self.output_frame_remainder == old(self).output_frame_remainder,
                self.resampler == old(self).resampler,
            decreases samples@.len() - index,
        {
            self.pending_samples.push_back(samples[index]);
            index = index + 1;
            assert(self.pending_samples@ =~= old(self).pending_samples@ + samples@.take(
                index as int,
            ));
        }
        assert(samples@.take(index as int) =~= samples@);
    }

    /// Sets the guest volume.
    pub fn set_volume(&mut self, volume: u32) -> (accepted: bool)
        ensures
            accepted,
            *final(self) == (Audio {
                volume: guest_volume(volume),
                ..*old(self)
            }),
    {
        self.volume = if volume > 255 {
            255
        } else {
            volume as u8
        };
        true
    }

    /// Sets the master volume in percent.
    pub fn set_master_volume(&mut self, volume: u8)
        ensures
            *final(self) == (Audio {
                master_volume: master_percent(volume),
                ..*old(self)
            }),
    {
        self.master_volume = if volume > 100 {
            100
        } else {
            volume
        };
    }

    /// The master volume in percent.
    pub fn master_volume(&self) -> (volume: u8)
        ensures
            volume == self.master_volume,
    {
        self.master_volume
    }

    /// Mutes output, dropping what waits, or ends that.
    pub fn set_muted(&mut self, muted: bool) -> (accepted: bool)
        ensures
            accepted,
            final(self).muted == muted,
            final(self).pending_samples@ == if muted {
                Seq::empty()
            } else {
                old(self).pending_samples@
            },
            final(self).config == old(self).config,
            final(self).volume == old(self).volume,
            final(self).master_volume == old(self).master_volume,
            final(self).output_frame_remainder == old(self).output_frame_remainder,
            final(self).resampler == old(self).resampler,
    {
        self.muted = muted;
        if muted {
            self.pending_samples.clear();
        }
        true
    }

    /// Takes the samples for one video frame, silence where none wait.
    pub fn take_frame_samples(&mut self) -> (samples: Vec<i16>)
        requires
            old(self).output_frame_remainder + OUTPUT_SAMPLE_RATE <= u32::MAX,
        ensures
            frame_taken(*old(self), *final(self), samples@),
    {
        let total: u32 = self.output_frame_remainder + OUTPUT_SAMPLE_RATE;
        let due: usize = (total / VIDEO_FRAMES_PER_SECOND) as usize * 2;
        self.output_frame_remainder = total % VIDEO_FRAMES_PER_SECOND;
        let ghost waiting = self.pending_samples@;
        let mut samples: Vec<i16> = Vec::new();
        assert(waiting.skip(0) =~= waiting);
        while samples.len() < due
            invariant
                samples@.len() <= due,
                waiting == old(self).pending_samples@,
                self.pending_samples@ =~= if samples@.len() <= waiting.len() {
                    waiting.skip(samples@.len() as int)
                } else {
                    Seq::empty()
                },
                forall|i: int|
                    0 <= i < samples@.len() ==> #[trigger] samples@[i] == (if i < waiting.len() {
                        waiting[i]
                    } else {
                        0
                    }),
                self.output_frame_remainder == remainder_after(old(self).output_frame_remainder),
                self.config == old(self).config,
                self.volume == old(self).volume,
                self.master_volume == old(self).master_volume,
                self.muted == old(self).muted,
                self.resampler == old(self).resampler,
            decreases due - samples@.len(),
        {
            match self.pending_samples.pop_front() {
                Some(sample) => {
                    samples.push(sample);
                },
                None => {
                    samples.push(0);
                },
            }
        }
        assert(samples@ =~= Seq::new(
            due as nat,
            |i: int|
                if i < waiting.len() {
                    waiting[i]
                } else {
                    0
                },
        ));
        samples
    }

    /// What the guest opened output with.
    pub fn config(&self) -> (config: Option<AudioConfig>)
        ensures
            config == self.config,
    {
        self.config
    }

    /// The volume to render with.
    pub fn effective_volume(&self) -> (ratio: VolumeRatio)
        ensures
            ratio == volume_ratio(self.volume, self.master_volume, self.muted),
    {
        rendering_volume(self.volume, self.master_volume, self.muted)
    }
}

} // verus!
