use dingooemu::audio::{
    decode_pcm, Audio, AudioConfig, AudioWrite, Frame, Interpolation, SampleFormat,
    StreamingResampler, VolumeRatio, OUTPUT_SAMPLE_RATE,
};
use dingooemu::host_audio::{host_output_enabled_default, HostAudio, HostWrite};

fn float_to_i16(sample: f32) -> i16 {
    (sample * 32767.0).clamp(i16::MIN as f32, i16::MAX as f32) as i16
}

fn render(frames: &[Interpolation], ratio: VolumeRatio) -> Vec<i16> {
    let volume =
        ratio.volume as f32 / ratio.full_scale as f32 * ratio.master_percent as f32 / 100.0;
    let mut samples = Vec::new();
    for frame in frames {
        let fraction = frame.offset as f32 / OUTPUT_SAMPLE_RATE as f32;
        for (previous, current) in [
            (frame.previous.left, frame.current.left),
            (frame.previous.right, frame.current.right),
        ] {
            let previous = previous as f32 / 32768.0;
            let current = current as f32 / 32768.0;
            samples.push(float_to_i16((previous + (current - previous) * fraction) * volume));
        }
    }
    samples
}

fn write(audio: &mut Audio, data: &[u8]) -> bool {
    match audio.write(data) {
        AudioWrite::Rejected => false,
        AudioWrite::Silent => true,
        AudioWrite::Render(frames) => {
            let samples = render(&frames, audio.effective_volume());
            audio.queue(&samples);
            true
        }
    }
}

#[test]
fn decodes_s16le_mono_pcm() {
    let samples: Vec<f32> = decode_pcm(&[0x00, 0x80, 0x00, 0x40], SampleFormat::S16Le, 1)
        .iter()
        .map(|&sample| sample as f32 / 32768.0)
        .collect();

    assert_eq!(samples, vec![-1.0, 0.5]);
}

#[test]
fn drops_incomplete_pcm_frames() {
    let samples = decode_pcm(&[0, 128, 255], SampleFormat::U8, 2);

    assert_eq!(samples.len(), 2);
    assert_eq!(samples, vec![-32768, 0]);
}

#[test]
fn master_volume_is_clamped_to_percent_range() {
    let mut audio = Audio::new();
    audio.set_master_volume(35);
    assert_eq!(audio.master_volume(), 35);
    audio.set_master_volume(255);
    assert_eq!(audio.master_volume(), 100);
}

#[test]
fn disabled_host_output_uses_the_emulated_frame_clock_for_backpressure() {
    let mut audio = HostAudio::new();
    audio.set_host_output_enabled(false);
    assert!(!audio.host_output_enabled());
    assert!(audio.open(AudioConfig::new(8_000, 16, 1, 100).unwrap()));

    assert!(matches!(audio.write(&vec![0; 8_000], None), HostWrite::Accepted));
    assert!(!audio.can_write(None));
    audio.advance_frame();
    assert!(audio.can_write(None));
}

#[test]
fn a_device_takes_a_few_buffers() {
    let mut audio = HostAudio::new();
    let config = AudioConfig::new(8_000, 16, 1, 60).unwrap();
    assert!(matches!(audio.write(&[1, 0], Some(0)), HostWrite::Rejected));
    assert!(audio.open(config));
    match audio.write(&[1, 0, 2, 0, 3], Some(3)) {
        HostWrite::Play(samples) => assert_eq!(samples, vec![1, 2]),
        other => panic!("{other:?}"),
    }
    assert!(matches!(audio.write(&[1, 0], Some(4)), HostWrite::Rejected));
    assert!(matches!(audio.write(&[1, 0], None), HostWrite::Accepted));
    assert!(matches!(audio.write(&[1], None), HostWrite::Rejected));
    assert!(audio.set_muted(true));
    assert!(matches!(audio.write(&[1, 0], Some(4)), HostWrite::Accepted));
    assert_eq!(audio.effective_volume().volume, 0);
    assert!(audio.set_volume(500));
    audio.resume_after_state_load();
    assert_eq!((audio.config, audio.volume, audio.muted), (Some(config), 255, true));
    assert!(audio.close());
    assert_eq!(audio.config, None);
}

#[test]
fn resamples_mono_audio_for_one_libretro_frame() {
    let mut audio = Audio::new();
    let config = AudioConfig::new(16_000, 16, 1, 100).unwrap();
    assert!(audio.open(config));

    let mut pcm = Vec::new();
    for sample in 0..1_600 {
        let value = if sample % 2 == 0 { 10_000i16 } else { -10_000i16 };
        pcm.extend_from_slice(&value.to_le_bytes());
    }
    assert!(write(&mut audio, &pcm));

    let output = audio.take_frame_samples();
    assert_eq!(output.len(), (OUTPUT_SAMPLE_RATE as usize / 60) * 2);
    assert!(output.iter().any(|&sample| sample != 0));
    assert!(output.chunks_exact(2).all(|frame| frame[0] == frame[1]));
}

#[test]
fn configurations_are_checked() {
    assert_eq!(SampleFormat::from_sdk_value(8), Some(SampleFormat::U8));
    assert_eq!(SampleFormat::from_sdk_value(16), Some(SampleFormat::S16Le));
    assert_eq!(SampleFormat::from_sdk_value(24), None);
    assert_eq!(
        AudioConfig::new(22_050, 8, 2, 50),
        Some(AudioConfig {
            sample_rate: 22_050,
            format: SampleFormat::U8,
            channels: 2,
            volume: 50,
        })
    );
    assert_eq!(AudioConfig::new(0, 16, 1, 100), None);
    assert_eq!(AudioConfig::new(22_050, 24, 1, 100), None);
    assert_eq!(AudioConfig::new(22_050, 16, 0, 100), None);
    assert_eq!(AudioConfig::new(22_050, 16, 3, 100), None);
    assert!(host_output_enabled_default());
}

#[test]
fn output_frames_lie_between_the_input_frames() {
    let mut audio = Audio::new();
    assert!(audio.open(AudioConfig::new(44_100, 16, 1, 100).unwrap()));
    let mut pcm = Vec::new();
    for value in [100i16, 200, 300] {
        pcm.extend_from_slice(&value.to_le_bytes());
    }
    let frames = match audio.write(&pcm) {
        AudioWrite::Render(frames) => frames,
        other => panic!("{other:?}"),
    };
    let at = |value: i16| Frame { left: value, right: value };
    assert_eq!(
        frames,
        vec![
            Interpolation { previous: at(100), current: at(100), offset: 0 },
            Interpolation { previous: at(200), current: at(300), offset: 22_050 },
        ]
    );
}

#[test]
fn a_second_of_video_takes_a_second_of_sound() {
    let mut audio = Audio::new();
    let frames: usize = (0..60).map(|_| audio.take_frame_samples().len() / 2).sum();
    assert_eq!(frames, OUTPUT_SAMPLE_RATE as usize);
}

#[test]
fn muted_output_swallows_sound() {
    let mut audio = Audio::new();
    assert!(matches!(audio.write(&[0, 0]), AudioWrite::Rejected));
    assert!(audio.open(AudioConfig::new(16_000, 16, 1, 100).unwrap()));
    assert!(matches!(audio.write(&[]), AudioWrite::Rejected));
    assert!(audio.set_muted(true));
    assert!(matches!(audio.write(&[0, 0]), AudioWrite::Silent));
    assert_eq!(audio.effective_volume().volume, 0);
    assert!(audio.set_muted(false));
    assert!(audio.set_volume(300));
    assert_eq!(
        audio.effective_volume(),
        VolumeRatio { volume: 255, full_scale: 255, master_percent: 100 }
    );
    assert!(audio.close());
    assert!(audio.config().is_none());
}

#[test]
fn cuts_leave_the_resampled_stream_as_it_is() {
    let samples: Vec<i16> = (0..1_000).map(|value| value * 7 - 3_000).collect();
    for rate in [8_000u32, 11_025, 16_000, 22_050, 44_100, 48_000] {
        let mut whole = StreamingResampler::new(rate);
        let expected = whole.push(&samples, 2);
        assert_eq!(expected.len(), (500 - 1) * 22_050 / rate as usize + 1);
        let mut cut = StreamingResampler::new(rate);
        let mut outputs = Vec::new();
        for piece in [&samples[..2], &samples[2..602], &samples[602..602], &samples[602..]] {
            outputs.extend(cut.push(piece, 2));
        }
        assert_eq!(outputs, expected);
        assert_eq!(cut, whole);
    }
}

#[test]
fn one_channel_sounds_the_same_on_both_sides() {
    let mut resampler = StreamingResampler::new(8_000);
    let outputs = resampler.push(&[5, -9, 300], 1);
    assert_eq!(outputs.len(), 2 * 22_050 / 8_000 + 1);
    for frame in outputs {
        assert_eq!(frame.previous.left, frame.previous.right);
        assert_eq!(frame.current.left, frame.current.right);
    }
}
