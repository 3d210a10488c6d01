use hourglass::block_clock::draw_block_clock;
use hourglass::display::{Color, DisplayBuffer, Point};
use hourglass::hourglass::{HourglassState, MAXIMUM_DURATION_MS};
use hourglass::wav_reader::{WavFile, WavFormat};

fn whites(display: &DisplayBuffer) -> usize {
    let mut n = 0;
    for x in 0..32 {
        for y in 0..128 {
            if display.get_pixel_color(&Point { x, y }) == Ok(Color::White) {
                n += 1;
            }
        }
    }
    n
}

#[test]
fn two_full_minutes_show_two_full_blocks_and_a_partial_one() {
    let mut display = DisplayBuffer::new();
    // 2 minutes 31 seconds: blocks 0 and 1 full, block 2 grows 7*31/60 = 3 rows.
    draw_block_clock(151, &mut display);
    assert_eq!(display.get_pixel_color(&Point { x: 25, y: 1 }), Ok(Color::White));
    assert_eq!(display.get_pixel_color(&Point { x: 31, y: 7 }), Ok(Color::White));
    assert_eq!(display.get_pixel_color(&Point { x: 24, y: 1 }), Ok(Color::Black));
    assert_eq!(display.get_pixel_color(&Point { x: 17, y: 7 }), Ok(Color::White));
    assert_eq!(display.get_pixel_color(&Point { x: 9, y: 4 }), Ok(Color::White));
    assert_eq!(display.get_pixel_color(&Point { x: 9, y: 5 }), Ok(Color::Black));
    assert_eq!(whites(&display), 49 + 49 + 7 * 4);
}

#[test]
fn last_block_blinks_off_a_row_on_even_seconds() {
    let mut display = DisplayBuffer::new();
    draw_block_clock(0, &mut display);
    assert_eq!(whites(&display), 0);
    let mut display = DisplayBuffer::new();
    draw_block_clock(1, &mut display);
    assert_eq!(whites(&display), 7);
}

#[test]
fn very_long_times_fill_the_panel_with_blocks() {
    let mut display = DisplayBuffer::new();
    draw_block_clock(u128::MAX, &mut display);
    assert_eq!(whites(&display), 64 * 49 - 49 + 49);
    assert_eq!(display.get_pixel_color(&Point { x: 0, y: 0 }), Ok(Color::Black));
}

#[test]
fn timer_minutes_are_capped_and_saturate() {
    let mut state = HourglassState::new();
    assert!(!state.ticking && state.duration_ms == 0 && state.target_time_ms == 0);
    state.plus_minute(1000);
    assert_eq!(state.duration_ms, 60_000);
    assert!(state.ticking);
    assert_eq!(state.target_time_ms, 61_000);
    state.minus_minute();
    assert_eq!(state.duration_ms, 0);
    assert_eq!(state.target_time_ms, 1000);
    state.minus_minute();
    assert_eq!(state.duration_ms, 0);
    state.set_duration_ms(u128::MAX);
    assert_eq!(state.duration_ms, MAXIMUM_DURATION_MS);
    state.plus_minute(0);
    assert_eq!(state.duration_ms, MAXIMUM_DURATION_MS);
    state.stop(77);
    assert!(!state.ticking);
    assert_eq!(state.target_time_ms, 77);
    assert_eq!(state.duration_ms, 0);
    state.set_duration_ms(5);
    state.start(u128::MAX);
    assert_eq!(state.target_time_ms, u128::MAX);
}

fn le32(v: u32) -> [u8; 4] {
    v.to_le_bytes()
}

fn wave_bytes(total: u32, samples: &[i16]) -> Vec<u8> {
    let mut b = Vec::new();
    b.extend_from_slice(b"RIFF");
    b.extend_from_slice(&le32(total));
    b.extend_from_slice(b"WAVE");
    b.extend_from_slice(b"fmt ");
    b.extend_from_slice(&le32(16));
    b.extend_from_slice(&1u16.to_le_bytes());
    b.extend_from_slice(&2u16.to_le_bytes());
    b.extend_from_slice(&le32(44100));
    b.extend_from_slice(&le32(176400));
    b.extend_from_slice(&4u16.to_le_bytes());
    b.extend_from_slice(&16u16.to_le_bytes());
    b.extend_from_slice(b"LIST");
    b.extend_from_slice(&le32(2));
    b.extend_from_slice(&[0, 0]);
    b.extend_from_slice(b"data");
    b.extend_from_slice(&le32(2 * samples.len() as u32));
    for s in samples {
        b.extend_from_slice(&s.to_le_bytes());
    }
    b
}

#[test]
fn wave_header_is_read_and_samples_follow_the_data_chunk() {
    let bytes = wave_bytes(0, &[1, -2, 32767]);
    let len = bytes.len() as u64;
    let bytes = wave_bytes(len as u32, &[1, -2, 32767]);
    let mut wav = WavFile::from_bytes("a.wav".to_string(), bytes, len);
    assert!(wav.is_valid);
    assert_eq!(wav.sample_rate(), 44100);
    assert_eq!(wav.channel_count(), 2);
    assert_eq!(wav.wav_format, WavFormat::Pcm);
    assert_eq!(wav.data_chunk_offset, 54);
    assert_eq!(wav.next_sample(), Some(1));
    assert_eq!(wav.next_sample(), Some(-2));
    assert_eq!(wav.next_sample(), Some(32767));
    assert_eq!(wav.next_sample(), None);
    wav.rewind();
    assert_eq!(wav.next_sample(), Some(1));
}

#[test]
fn wave_with_wrong_size_or_no_data_chunk_is_invalid() {
    let bytes = wave_bytes(12, &[5]);
    let len = bytes.len() as u64;
    let wav = WavFile::from_bytes("b.wav".to_string(), bytes, len);
    assert!(!wav.is_valid);
    let mut cut = wave_bytes(0, &[]);
    cut.truncate(50);
    let n = cut.len();
    let mut wav = WavFile::from_bytes("c.wav".to_string(), cut, n as u64);
    assert!(!wav.is_valid);
    assert_eq!(wav.data_chunk_offset, n);
    assert_eq!(wav.next_sample(), None);
    let wav = WavFile::from_bytes("d.wav".to_string(), vec![1, 2, 3], 3);
    assert!(!wav.is_valid);
    let wav = WavFile::invalid();
    assert!(!wav.is_valid);
    assert_eq!(wav.sample_rate(), 0);
}
