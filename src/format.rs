use vstd::prelude::*;

verus! {

/// Bytes of one 16-bit signed sample.
pub const BYTES_PER_SAMPLE: u32 = 2;

/// Peak amplitude of a synthesized sample at full volume, kept below
/// `i16::MAX` for headroom.
pub const PEAK_SCALE: i16 = 16767;

/// Sample rate of the one-second offline reference tone.
pub const REFERENCE_SAMPLE_RATE: u32 = 44100;

/// Channels of the offline reference tone.
pub const REFERENCE_CHANNELS: u16 = 1;

/// Bits per sample of the offline reference tone.
pub const REFERENCE_BITS_PER_SAMPLE: u16 = 16;

/// Frequency of the offline reference tone, in hertz.
pub const REFERENCE_TONE_HZ: u32 = 440;

/// Raw identifier of an unknown sample format.
pub const RAW_FORMAT_UNKNOWN: u32 = 0;

/// Raw identifier of 16-bit signed little-endian samples.
pub const RAW_FORMAT_S16LE: u32 = 0x103;

/// Raw identifier of 16-bit signed big-endian samples.
pub const RAW_FORMAT_S16BE: u32 = 0x104;

/// A raw audio sample format identifier, as the audio server numbers it.
#[derive(Clone, Copy, PartialEq, Eq, Structural, Debug)]
pub struct AudioFormat(pub u32);

impl AudioFormat {
    /// Wraps a raw format identifier.
    pub fn from_raw(raw: u32) -> (r: AudioFormat)
        ensures
            r.0 == raw,
    {
        AudioFormat(raw)
    }

    /// The raw format identifier.
    pub fn as_raw(&self) -> (r: u32)
        ensures
            r == self.0,
    {
        self.0
    }
}

/// Why a stream configuration was rejected.
#[derive(Clone, Copy, PartialEq, Eq, Structural, Debug)]
pub enum ConfigError {
    ZeroSampleRate,
    ZeroChannels,
}

/// The integer part of a tone stream's configuration: interleaved 16-bit
/// signed little-endian samples at `sample_rate` frames per second, one
/// sample per channel in each frame.
#[derive(Clone, Copy, PartialEq, Eq, Structural, Debug)]
pub struct StreamConfig {
    pub sample_rate: u32,
    pub channel_count: u32,
}

impl StreamConfig {
    /// A configuration that a fill may run with.
    pub open spec fn wf(&self) -> bool {
        self.sample_rate > 0 && self.channel_count > 0
    }

    /// Byte distance between the starts of consecutive frames.
    pub open spec fn stride_spec(&self) -> nat {
        BYTES_PER_SAMPLE as nat * self.channel_count as nat
    }

    /// Checks a configuration once, before any fill.
    pub fn new(sample_rate: u32, channel_count: u32) -> (r: Result<StreamConfig, ConfigError>)
        ensures
            sample_rate == 0 ==> r == Err::<StreamConfig, ConfigError>(ConfigError::ZeroSampleRate),
            sample_rate != 0 && channel_count == 0 ==> r == Err::<StreamConfig, ConfigError>(
                ConfigError::ZeroChannels,
            ),
            sample_rate != 0 && channel_count != 0 ==> r == Ok::<StreamConfig, ConfigError>(
                (StreamConfig { sample_rate, channel_count }),
            ),
            r is Ok ==> r->Ok_0.wf(),
    {
        if sample_rate == 0 {
            Err(ConfigError::ZeroSampleRate)
        } else if channel_count == 0 {
            Err(ConfigError::ZeroChannels)
        } else {
            Ok(StreamConfig { sample_rate, channel_count })
        }
    }

    /// Byte distance between the starts of consecutive frames:
    /// bytes per sample times channel count.
    pub fn stride(&self) -> (r: u64)
        ensures
            r == self.stride_spec(),
    {
        BYTES_PER_SAMPLE as u64 * self.channel_count as u64
    }
}

} // verus!
