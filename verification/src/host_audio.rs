//! Guest PCM audio through a device of the host, or through none.
//!
//! The host owns the device and its player, and says how many buffers wait there. With
//! output to it switched off, sound is paced by emulated frames alone.

use crate::audio::{
    decode_pcm, frame_count, guest_volume, master_percent, pcm_samples, rendering_volume,
    volume_ratio, AudioConfig, VolumeRatio,
};
use vstd::prelude::*;

verus! {

/// Host buffers that may wait before the guest has to.
pub const MAX_QUEUED_AUDIO_BUFFERS: usize = 4;

/// Whether a host device plays audio unless told otherwise.
pub fn host_output_enabled_default() -> (enabled: bool)
    ensures
        enabled,
{
    true
}

/// What becomes of guest data.
#[derive(Debug)]
pub enum HostWrite {
    /// It is not accepted; the guest may retry.
    Rejected,
    /// It is accepted, and nothing is played.
    Accepted,
    /// It is accepted, and the player plays these samples.
    Play(Vec<i16>),
}

/// Audio output through the host.
#[derive(Clone, Copy, Debug, PartialEq, Eq, Structural)]
pub struct HostAudio {
    pub config: Option<AudioConfig>,
    pub volume: u8,
    pub master_volume: u8,
    pub muted: bool,
    pub host_output_enabled: bool,
    /// Input frames that wait where there is no device, in sixtieths.
    pub virtual_buffered_frame_units: u64,
}

/// Input frames that wait after more came, in sixtieths, up to the largest number.
pub open spec fn units_after(units: u64, frames: int) -> u64 {
    if units + frames * 60 > u64::MAX {
        u64::MAX
    } else {
        (units + frames * 60) as u64
    }
}

/// Output that was opened.
pub open spec fn opened_with(audio: HostAudio, config: AudioConfig) -> HostAudio {
    HostAudio {
        config: Some(config),
        volume: config.volume,
        virtual_buffered_frame_units: 0,
        ..audio
    }
}

/// Output behind one more video frame: without a device, a sixtieth of a second of what
/// waits has passed.
pub open spec fn frame_passed(audio: HostAudio) -> HostAudio {
    match audio.config {
        Some(config) => if audio.host_output_enabled {
            audio
        } else {
            HostAudio {
                virtual_buffered_frame_units: if audio.virtual_buffered_frame_units
                    < config.sample_rate {
                    0
                } else {
                    (audio.virtual_buffered_frame_units - config.sample_rate) as u64
                },
                ..audio
            }
        },
        None => audio,
    }
}

impl HostAudio {
    /// Closed output to a device.
    pub fn new() -> (audio: HostAudio)
        ensures
            audio == (HostAudio {
                config: None,
                volume: 100,
                master_volume: 100,
                muted: false,
                host_output_enabled: true,
                virtual_buffered_frame_units: 0,
            }),
    {
        HostAudio {
            config: None,
            volume: 100,
            master_volume: 100,
            muted: false,
            host_output_enabled: host_output_enabled_default(),
            virtual_buffered_frame_units: 0,
        }
    }

    /// Opens output, closing what was open before. The host connects a player where
    /// output to its device is on.
    pub fn open(&mut self, config: AudioConfig) -> (opened: bool)
        ensures
            opened,
            *final(self) == opened_with(*old(self), config),
    {
        let _ = self.close();
        self.volume = config.volume;
        self.config = Some(config);
        true
    }

    /// Closes output. The host stops its player.
    pub fn close(&mut self) -> (closed: bool)
        ensures
            closed,
            *final(self) == (HostAudio {
                config: None,
                virtual_buffered_frame_units: 0,
                ..*old(self)
            }),
    {
        self.virtual_buffered_frame_units = 0;
        self.config = None;
        true
    }

    /// Whether guest data would be accepted now, given how many buffers wait at a
    /// player, where there is one.
    pub open spec fn accepts(&self, queued_buffers: Option<usize>) -> bool {
        match self.config {
            Some(config) => self.muted || self.volume == 0 || if self.host_output_enabled {
                match queued_buffers {
                    Some(queued) => queued < MAX_QUEUED_AUDIO_BUFFERS,
                    None => true,
                }
            } else {
                self.virtual_buffered_frame_units < config.sample_rate * 30
            },
            None => true,
        }
    }

    /// Whether guest data would be accepted now.
    pub fn can_write(&self, queued_buffers: Option<usize>) -> (result: bool)
        ensures
            result == self.accepts(queued_buffers),
    {
        match self.config {
            Some(config) => {
                if self.muted || self.volume == 0 {
                    true
                } else if self.host_output_enabled {
                    match queued_buffers {
                        Some(queued) => queued < MAX_QUEUED_AUDIO_BUFFERS,
                        None => true,
                    }
                } else {
                    self.virtual_buffered_frame_units < config.sample_rate as u64 * 30
                }
            },
            None => true,
        }
    }

    /// What writing guest data does.
    pub open spec fn written(
        self,
        after: HostAudio,
        data: Seq<u8>,
        queued_buffers: Option<usize>,
        result: HostWrite,
    ) -> bool {
        match self.config {
            None => result is Rejected && after == self,
            Some(config) => {
                let samples = pcm_samples(data, config.format, config.channels);
                if data.len() == 0 {
                    result is Rejected && after == self
                } else if self.muted || self.volume == 0 {
                    result is Accepted && after == self
                } else if !self.accepts(queued_buffers) || samples.len() == 0 {
                    result is Rejected && after == self
                } else if !self.host_output_enabled {
                    &&& result is Accepted
                    &&& after == (HostAudio {
                        virtual_buffered_frame_units: units_after(
                            self.virtual_buffered_frame_units,
                            frame_count(samples.len() as int, config.channels as int),
                        ),
                        ..self
                    })
                } else if queued_buffers is None {
                    result is Accepted && after == self
                } else {
                    &&& result matches HostWrite::Play(played) && played@ == samples
                    &&& after == self
                }
            },
        }
    }

    /// Takes guest data, given how many buffers wait at a player, where there is one.
    pub fn write(&mut self, data: &[u8], queued_buffers: Option<usize>) -> (result: HostWrite)
        requires
            old(self).config matches Some(config) ==> config.channels >= 1,
        ensures
            old(self).written(*final(self), data@, queued_buffers, result),
    {
        let config = match self.config {
            Some(config) => config,
            None => {
                return HostWrite::Rejected;
            },
        };
        if data.len() == 0 {
            return HostWrite::Rejected;
        }
        if self.muted || self.volume == 0 {
            return HostWrite::Accepted;
        }
        if !self.can_write(queued_buffers) {
            return HostWrite::Rejected;
        }
        let samples: Vec<i16> = decode_pcm(data, config.format, config.channels);
        if samples.len() == 0 {
            return HostWrite::Rejected;
        }
        if !self.host_output_enabled {
            let frames: u64 = (samples.len() / config.channels as usize) as u64;
            let units: u64 = match frames.checked_mul(60) {
                Some(units) => units,
                None => u64::MAX,
            };
            self.virtual_buffered_frame_units = self.virtual_buffered_frame_units.saturating_add(
                units,
            );
            return HostWrite::Accepted;
        }
        if queued_buffers.is_none() {
            return HostWrite::Accepted;
        }
        HostWrite::Play(samples)
    }

    /// Sets the guest volume.
    pub fn set_volume(&mut self, volume: u32) -> (accepted: bool)
        ensures
            accepted,
            *final(self) == (HostAudio {
                volume: guest_volume(volume),
                ..*old(self)
            }),
    {
        self.volume = if volume > 255 {
            255
        } else {
            volume as u8
        };
        true
    }

    /// Sets the master volume in percent.
    pub fn set_master_volume(&mut self, volume: u8)
        ensures
            *final(self) == (HostAudio {
                master_volume: master_percent(volume),
                ..*old(self)
            }),
    {
        self.master_volume = if volume > 100 {
            100
        } else {
            volume
        };
    }

    /// Mutes output, or ends that.
    pub fn set_muted(&mut self, muted: bool) -> (accepted: bool)
        ensures
            accepted,
            *final(self) == (HostAudio { muted, ..*old(self) }),
    {
        self.muted = muted;
        true
    }

    /// The volume of the player.
    pub fn effective_volume(&self) -> (ratio: VolumeRatio)
        ensures
            ratio == volume_ratio(self.volume, self.master_volume, self.muted),
    {
        rendering_volume(self.volume, self.master_volume, self.muted)
    }

    /// Switches output to the device on or off. The host drops its device with it.
    pub fn set_host_output_enabled(&mut self, enabled: bool)
        ensures
            *final(self) == (HostAudio {
                host_output_enabled: enabled,
                virtual_buffered_frame_units: if enabled {
                    old(self).virtual_buffered_frame_units
                } else {
                    0
                },
                ..*old(self)
            }),
    {
        self.host_output_enabled = enabled;
        if !enabled {
            self.virtual_buffered_frame_units = 0;
        }
    }

    /// Whether output goes to the device.
    pub fn host_output_enabled(&self) -> (enabled: bool)
        ensures
            enabled == self.host_output_enabled,
    {
        self.host_output_enabled
    }

    /// Lets one video frame of input pass where there is no device.
    pub fn advance_frame(&mut self)
        ensures
            *final(self) == frame_passed(*old(self)),
    {
        if !self.host_output_enabled {
            if let Some(config) = self.config {
                self.virtual_buffered_frame_units =
                self.virtual_buffered_frame_units.saturating_sub(config.sample_rate as u64);
            }
        }
    }

    /// Opens output again after a state was restored, with the volumes that it had.
    pub fn resume_after_state_load(&mut self)
        ensures
            *final(self) == match old(self).config {
                Some(config) => HostAudio {
                    volume: old(self).volume,
                    master_volume: if old(self).master_volume > 100 {
                        100
                    } else {
                        old(self).master_volume
                    },
                    ..opened_with(*old(self), config)
                },
                None => *old(self),
            },
    {
        if let Some(config) = self.config {
            let volume: u8 = self.volume;
            let master_volume: u8 = self.master_volume;
            let muted: bool = self.muted;
            let _ = self.open(config);
            let _ = self.set_volume(volume as u32);
            self.set_master_volume(master_volume);
            let _ = self.set_muted(muted);
        }
    }
}

} // verus!
