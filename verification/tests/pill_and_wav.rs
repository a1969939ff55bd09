use r_tools::pill::{
    after_recording, bar_rgb, is_metered, phase_theme, push_level, shown_levels, AfterRecording,
    MeterTracker, Phase, RecordingLatch, Stop, BARS, MIN_WAV, PTT_BARS,
};
use r_tools::wav::{parse_wav_spec, peak_magnitude, tail_window, u16le, u32le, WavSpec};
use std::collections::VecDeque;

fn synth_wav(format: u16, channels: u16, rate: u32, bits: u16, frames: &[f32]) -> Vec<u8> {
    let bps = (bits / 8) as usize;
    let mut data = Vec::with_capacity(frames.len() * channels as usize * bps);
    for &v in frames {
        for _ in 0..channels {
            match (format, bits) {
                (3, 32) => data.extend_from_slice(&v.to_le_bytes()),
                (_, 16) => data.extend_from_slice(&((v * 32767.0) as i16).to_le_bytes()),
                _ => panic!("unsupported sample format"),
            }
        }
    }
    let mut wav = Vec::new();
    wav.extend_from_slice(b"RIFF");
    wav.extend_from_slice(&((36 + data.len()) as u32).to_le_bytes());
    wav.extend_from_slice(b"WAVEfmt ");
    wav.extend_from_slice(&16u32.to_le_bytes());
    wav.extend_from_slice(&format.to_le_bytes());
    wav.extend_from_slice(&channels.to_le_bytes());
    wav.extend_from_slice(&rate.to_le_bytes());
    wav.extend_from_slice(&(rate * channels as u32 * bps as u32).to_le_bytes());
    wav.extend_from_slice(&((channels * bps as u16).to_le_bytes()));
    wav.extend_from_slice(&bits.to_le_bytes());
    wav.extend_from_slice(b"data");
    wav.extend_from_slice(&(data.len() as u32).to_le_bytes());
    wav.extend_from_slice(&data);
    wav
}

fn sine(amp: f32) -> Vec<f32> {
    (0..800)
        .map(|i| amp * (2.0 * std::f32::consts::PI * 440.0 * i as f32 / 8000.0).sin())
        .collect()
}

fn spec_fields(s: &WavSpec) -> (u64, u64, u32, u16, u16) {
    (s.data_start, s.bytes_per_frame, s.sample_rate, s.format, s.bits)
}

/// The meter level of an integer PCM file held in `wav`, as the pill computes it.
fn int_level(wav: &[u8]) -> f32 {
    let head = &wav[..wav.len().min(4096)];
    let spec = match parse_wav_spec(head) {
        Some(s) => s,
        None => return 0.0,
    };
    let (off, n) = match tail_window(wav.len() as u64, &spec) {
        Some(w) => w,
        None => return 0.0,
    };
    let tail = &wav[off as usize..(off + n) as usize];
    let scale = match spec.bits {
        8 => 128.0,
        16 => 32768.0,
        24 => 8388608.0,
        _ => 2147483648.0,
    };
    (peak_magnitude(tail, spec.bytes_per_frame, spec.bits) as f32 / scale).clamp(0.0, 1.0)
}

#[test]
fn stt_pill_themed() {
    assert_eq!(phase_theme(Phase::Record), ((0, 0, 0, 128), (255, 107, 107, 255)));
    assert_eq!(phase_theme(Phase::Transcribing), ((0, 0, 0, 128), (90, 169, 230, 255)));
    assert_eq!(phase_theme(Phase::MicOn), ((0, 0, 0, 128), (255, 255, 255, 64)));
    assert_eq!(bar_rgb(false), (255, 255, 255));
    assert_eq!(bar_rgb(true), (153, 153, 153));
    assert_eq!(shown_levels(Phase::MicOn, BARS), (BARS - PTT_BARS, PTT_BARS));
    assert_eq!(shown_levels(Phase::Record, BARS), (0, BARS));
}

#[test]
fn phase_numbers() {
    assert_eq!(Phase::from_u8(0), Phase::Record);
    assert_eq!(Phase::from_u8(1), Phase::Transcribing);
    assert_eq!(Phase::from_u8(2), Phase::MicOn);
    assert_eq!(Phase::from_u8(9), Phase::Record);
    for p in [Phase::Record, Phase::Transcribing, Phase::MicOn] {
        assert_eq!(Phase::from_u8(p.to_u8()), p);
    }
}

#[test]
fn meter_only_while_recording() {
    assert!(is_metered(Phase::Record, true));
    assert!(is_metered(Phase::MicOn, true));
    assert!(!is_metered(Phase::Transcribing, true));
    assert!(!is_metered(Phase::Record, false));
}

#[test]
fn stall_after_a_second_and_a_half_without_growth() {
    let ms = 1_000_000u64;
    let mut t = MeterTracker::new(0);
    assert!(!t.observe(100, 500 * ms, 500 * ms));
    assert!(!t.observe(100, 1900 * ms, 1900 * ms));
    assert!(t.observe(100, 2100 * ms, 2100 * ms));
    assert!(!t.observe(200, 2200 * ms, 2200 * ms));
    assert_eq!((t.last_len, t.last_progress), (200, 2200 * ms));
    let mut early = MeterTracker::new(0);
    assert!(!early.observe(0, 1000 * ms, 900 * ms));
}

#[test]
fn recording_ends_after_the_level_was_reached() {
    let mut latch = RecordingLatch::new();
    let readings = [Some(false), None, Some(true), Some(true), None, Some(false)];
    let ended: Vec<bool> = readings.iter().map(|r| latch.observe(*r)).collect();
    assert_eq!(ended, vec![false, false, false, false, false, true]);
}

#[test]
fn what_follows_a_recording() {
    assert_eq!(after_recording(Stop::Abort, 5000), AfterRecording::Abort);
    assert_eq!(after_recording(Stop::Transcribe, 0), AfterRecording::Missing);
    assert_eq!(after_recording(Stop::Transcribe, MIN_WAV - 1), AfterRecording::TooShort);
    assert_eq!(after_recording(Stop::Transcribe, MIN_WAV), AfterRecording::Transcribe);
}

#[test]
fn level_history_keeps_the_newest() {
    let mut levels: VecDeque<f32> = VecDeque::new();
    for v in [0.1, 0.2, 0.3, 0.4] {
        push_level(&mut levels, v, 3);
    }
    assert_eq!(levels, VecDeque::from(vec![0.2, 0.3, 0.4]));
    assert_eq!(shown_levels(Phase::MicOn, 5), (0, 5));
    assert_eq!(shown_levels(Phase::MicOn, 30), (7, 23));
    assert_eq!(shown_levels(Phase::Transcribing, 61), (0, 60));
}

#[test]
fn little_endian_fields() {
    assert_eq!(u16le(&[0x34, 0x12]), Some(0x1234));
    assert_eq!(u16le(&[1]), None);
    assert_eq!(u32le(&[1, 0, 0, 0, 9]), Some(1));
    assert_eq!(u32le(&[0x78, 0x56, 0x34, 0x12]), Some(0x12345678));
    assert_eq!(u32le(&[1, 2, 3]), None);
}

#[test]
fn header_reads_back() {
    let wav = synth_wav(1, 1, 8000, 16, &sine(0.5));
    let spec = parse_wav_spec(&wav[..44]).unwrap();
    assert_eq!(spec_fields(&spec), (44, 2, 8000, 1, 16));
    let wav = synth_wav(3, 2, 44100, 32, &[0.0; 4]);
    assert_eq!(spec_fields(&parse_wav_spec(&wav).unwrap()), (44, 8, 44100, 3, 32));
}

#[test]
fn header_skips_other_chunks() {
    let wav = synth_wav(1, 2, 8000, 16, &[0.0; 4]);
    let mut with_list = wav[..36].to_vec();
    with_list.extend_from_slice(b"LIST");
    with_list.extend_from_slice(&3u32.to_le_bytes());
    with_list.extend_from_slice(&[1, 2, 3, 0]);
    with_list.extend_from_slice(&wav[36..]);
    assert_eq!(spec_fields(&parse_wav_spec(&with_list).unwrap()), (56, 4, 8000, 1, 16));
}

#[test]
fn header_refusals() {
    assert!(parse_wav_spec(b"hello world, not a wav").is_none());
    let wav = synth_wav(1, 1, 8000, 16, &[0.0; 4]);
    assert!(parse_wav_spec(&wav[..43]).is_none());
    let mut no_fmt = wav.clone();
    no_fmt[12..16].copy_from_slice(b"junk");
    assert!(parse_wav_spec(&no_fmt).is_none());
    let mut zero_channels = wav.clone();
    zero_channels[22] = 0;
    assert!(parse_wav_spec(&zero_channels).is_none());
}

#[test]
fn tail_window_covers_eighty_milliseconds() {
    let spec = WavSpec { data_start: 44, bytes_per_frame: 2, sample_rate: 8000, format: 1, bits: 16 };
    assert_eq!(tail_window(44 + 1600, &spec), Some((364, 1280)));
    assert_eq!(tail_window(44 + 10, &spec), Some((44, 10)));
    assert_eq!(tail_window(44 + 1, &spec), None);
    assert_eq!(tail_window(10, &spec), None);
    let odd = WavSpec { bits: 12, ..spec };
    assert_eq!(tail_window(44 + 1600, &odd), None);
    let alaw = WavSpec { format: 6, ..spec };
    assert_eq!(tail_window(44 + 1600, &alaw), None);
    let slow = WavSpec { sample_rate: 5, ..spec };
    assert_eq!(tail_window(44 + 1600, &slow), Some((44 + 1598, 2)));
}

#[test]
fn peaks_of_each_sample_width() {
    assert_eq!(peak_magnitude(&[0x00, 0x80], 2, 16), 32768);
    assert_eq!(peak_magnitude(&[0xff, 0x7f, 0x01, 0x00], 2, 16), 32767);
    assert_eq!(peak_magnitude(&[0, 128, 255], 1, 8), 128);
    assert_eq!(peak_magnitude(&[128, 255], 1, 8), 127);
    assert_eq!(peak_magnitude(&[0, 0, 0x80], 3, 24), 8388608);
    assert_eq!(peak_magnitude(&[0xff, 0xff, 0xff], 3, 24), 1);
    assert_eq!(peak_magnitude(&[0, 0, 0, 0x80], 4, 32), 2147483648);
    assert_eq!(peak_magnitude(&[0x10, 0, 0x00, 0x80, 9], 4, 16), 32768);
    assert_eq!(peak_magnitude(&[], 2, 16), 0);
    assert_eq!(peak_magnitude(&[0, 0, 0, 0], 2, 16), 0);
}

#[test]
fn tone_level_from_the_tail() {
    let level = int_level(&synth_wav(1, 1, 8000, 16, &sine(0.5)));
    assert!((0.45..=0.55).contains(&level), "level={level}");
    assert_eq!(int_level(&synth_wav(1, 1, 8000, 16, &[0.0; 800])), 0.0);
    assert_eq!(int_level(b"hello world, not a wav"), 0.0);
}
