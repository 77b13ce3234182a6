use sine_tone::{
    chunk_meta, frame_count, write_frame, write_frames, AudioFormat, ChunkMeta, ConfigError,
    StreamConfig, PEAK_SCALE, RAW_FORMAT_S16BE, RAW_FORMAT_S16LE, RAW_FORMAT_UNKNOWN,
};

fn stereo() -> StreamConfig {
    StreamConfig::new(44100, 2).unwrap()
}

/// Samples of a running oscillator, advanced once per frame before each sample.
fn oscillate(phase: &mut f64, frames: usize, rate: f64, freq: f64, volume: f64) -> Vec<i16> {
    let two_pi = 2.0 * std::f64::consts::PI;
    let mut out = Vec::new();
    for _ in 0..frames {
        *phase += two_pi * freq / rate;
        if *phase >= two_pi {
            *phase -= two_pi;
        }
        out.push((phase.sin() * volume * PEAK_SCALE as f64) as i16);
    }
    out
}

fn read_sample(region: &[u8], at: usize) -> i16 {
    i16::from_le_bytes([region[at], region[at + 1]])
}

#[test]
fn audio_format_raw_round_trip() {
    assert_eq!(AudioFormat::from_raw(RAW_FORMAT_S16LE).as_raw(), 0x103);
    assert_eq!(AudioFormat::from_raw(RAW_FORMAT_S16BE).as_raw(), 0x104);
    assert_eq!(AudioFormat::from_raw(RAW_FORMAT_UNKNOWN).as_raw(), 0);
    assert_eq!(AudioFormat::from_raw(7), AudioFormat(7));
}

#[test]
fn config_rejects_zero_rate() {
    assert_eq!(StreamConfig::new(0, 2), Err(ConfigError::ZeroSampleRate));
    assert_eq!(StreamConfig::new(0, 0), Err(ConfigError::ZeroSampleRate));
}

#[test]
fn config_rejects_zero_channels() {
    assert_eq!(StreamConfig::new(44100, 0), Err(ConfigError::ZeroChannels));
}

#[test]
fn config_accepts_and_computes_stride() {
    let c = StreamConfig::new(48000, 3).unwrap();
    assert_eq!(c.sample_rate, 48000);
    assert_eq!(c.channel_count, 3);
    assert_eq!(c.stride(), 6);
    assert_eq!(stereo().stride(), 4);
}

#[test]
fn frame_count_rounds_down() {
    assert_eq!(frame_count(32, &stereo()), 8);
    assert_eq!(frame_count(35, &stereo()), 8);
    assert_eq!(frame_count(3, &stereo()), 0);
    assert_eq!(frame_count(0, &stereo()), 0);
}

#[test]
fn trailing_partial_frame_is_untouched() {
    let mut region = vec![0xAAu8; 35];
    let samples = vec![1i16, 2, 3, 4, 5, 6, 7, 8];
    let n = write_frames(&mut region, &stereo(), &samples);
    assert_eq!(n, 8);
    assert_eq!(&region[32..], &[0xAA, 0xAA, 0xAA]);
    for i in 0..8 {
        assert_eq!(read_sample(&region, i * 4), samples[i]);
    }
}

#[test]
fn empty_region_writes_nothing() {
    let mut region: Vec<u8> = Vec::new();
    assert_eq!(write_frames(&mut region, &stereo(), &[]), 0);
    assert!(region.is_empty());
}

#[test]
fn every_channel_slot_holds_the_frame_sample() {
    let config = StreamConfig::new(44100, 3).unwrap();
    let mut region = vec![0u8; 6 * 4 + 5];
    let samples = vec![-2i16, 300, i16::MIN, i16::MAX];
    assert_eq!(write_frames(&mut region, &config, &samples), 4);
    for i in 0..4 {
        for c in 0..3 {
            assert_eq!(read_sample(&region, i * 6 + c * 2), samples[i]);
        }
    }
    assert_eq!(&region[0..2], &[0xFE, 0xFF]);
    assert_eq!(&region[6..8], &[0x2C, 0x01]);
    assert_eq!(&region[12..14], &[0x00, 0x80]);
    assert_eq!(&region[18..20], &[0xFF, 0x7F]);
    assert_eq!(&region[24..], &[0, 0, 0, 0, 0]);
}

#[test]
fn write_frame_changes_only_its_frame() {
    let mut region = vec![9u8; 12];
    write_frame(&mut region, &stereo(), 1, -1);
    assert_eq!(region, vec![9, 9, 9, 9, 0xFF, 0xFF, 0xFF, 0xFF, 9, 9, 9, 9]);
}

#[test]
fn two_fills_equal_one_fill_of_twice_the_length() {
    let config = stereo();
    let mut phase = 0.0f64;
    let mut first = vec![0u8; 32];
    let s1 = oscillate(&mut phase, 8, 44100.0, 440.0, 0.7);
    write_frames(&mut first, &config, &s1);
    let mut second = vec![0u8; 32];
    let s2 = oscillate(&mut phase, 8, 44100.0, 440.0, 0.7);
    write_frames(&mut second, &config, &s2);

    let mut phase_once = 0.0f64;
    let mut once = vec![0u8; 64];
    let s = oscillate(&mut phase_once, 16, 44100.0, 440.0, 0.7);
    assert_eq!(write_frames(&mut once, &config, &s), 16);

    first.extend_from_slice(&second);
    assert_eq!(first, once);
}

#[test]
fn samples_stay_within_peak_scale() {
    let config = StreamConfig::new(44100, 1).unwrap();
    let mut phase = 0.0f64;
    let samples = oscillate(&mut phase, 44100, 44100.0, 440.0, 1.0);
    let mut region = vec![0u8; 2 * 44100];
    assert_eq!(write_frames(&mut region, &config, &samples), 44100);
    for i in 0..44100 {
        assert!((read_sample(&region, 2 * i) as i32).abs() <= PEAK_SCALE as i32);
    }
}

#[test]
fn phase_wraps_once_per_cycle() {
    let two_pi = 2.0 * std::f64::consts::PI;
    let mut phase = 0.0f64;
    let mut wraps = 0u32;
    for _ in 0..44100 {
        phase += two_pi * 440.0 / 44100.0;
        if phase >= two_pi {
            phase -= two_pi;
            wraps += 1;
        }
    }
    assert_eq!(wraps, 440);
    assert!(phase < 1e-9);
}

#[test]
fn eight_stereo_frames_at_seventy_percent() {
    let config = stereo();
    let mut phase = 0.0f64;
    let samples = oscillate(&mut phase, 8, 44100.0, 440.0, 0.7);
    let mut region = vec![0u8; 8 * 2 * 2];
    assert_eq!(write_frames(&mut region, &config, &samples), 8);
    let expected =
        ((2.0 * std::f64::consts::PI * 440.0 / 44100.0).sin() * 0.7 * 16767.0) as i16;
    assert_eq!(read_sample(&region, 0), expected);
    assert_eq!(read_sample(&region, 2), expected);
    assert_eq!(
        chunk_meta(&config, 8),
        Some(ChunkMeta { offset: 0, stride: 4, size: 32 })
    );
}

#[test]
fn chunk_meta_rejects_sizes_beyond_u32() {
    assert_eq!(chunk_meta(&stereo(), 0x4000_0000), None);
    assert_eq!(
        chunk_meta(&stereo(), 0x3FFF_FFFF),
        Some(ChunkMeta { offset: 0, stride: 4, size: 0xFFFF_FFFC })
    );
    let wide = StreamConfig::new(8000, 0x4000_0000).unwrap();
    assert_eq!(chunk_meta(&wide, 0), None);
    assert_eq!(chunk_meta(&stereo(), 0), Some(ChunkMeta { offset: 0, stride: 4, size: 0 }));
}
