//! A sample-accurate PCM frame writer for a fixed-frequency tone.
//!
//! The library validates the stream layout (sample rate, channel count,
//! 16-bit little-endian samples), computes how many whole frames fit in a
//! transport buffer, replicates each sample into every channel slot of its
//! frame, and reports the chunk metadata that the transport expects back.
pub mod format;
pub mod frame;

pub use format::{
    AudioFormat, ConfigError, StreamConfig, BYTES_PER_SAMPLE, PEAK_SCALE, RAW_FORMAT_S16BE,
    RAW_FORMAT_S16LE, RAW_FORMAT_UNKNOWN, REFERENCE_BITS_PER_SAMPLE, REFERENCE_CHANNELS,
    REFERENCE_SAMPLE_RATE, REFERENCE_TONE_HZ,
};
pub use frame::{chunk_meta, frame_count, write_frame, write_frames, ChunkMeta};
