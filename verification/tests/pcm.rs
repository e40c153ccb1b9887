use match_display::audio::{AudioError, WavInfo};
use match_display::pcm::{
    fill_i2s_buffer, fill_request, frame_bytes, keep_torn, read_pcm_sample, BUFFER_SIZE,
    RAW_BUFFER_SIZE, SILENT_WORD,
};

#[test]
fn samples_of_each_length() {
    assert_eq!(read_pcm_sample(&[0x00, 0x00], 2), 0x8000);
    assert_eq!(read_pcm_sample(&[0xff, 0x7f], 2), 0xffff);
    assert_eq!(read_pcm_sample(&[0x00, 0x80], 2), 0x0000);
    assert_eq!(read_pcm_sample(&[0xff, 0xff], 2), 0x7fff);
    assert_eq!(read_pcm_sample(&[0x80], 1), 0x8000);
    assert_eq!(read_pcm_sample(&[0xff], 1), 0xff00);
    assert_eq!(read_pcm_sample(&[0xff, 0x34, 0x12], 3), 0x9234);
    assert_eq!(read_pcm_sample(&[0x01, 0xff, 0xff], 3), 0x7fff);
    assert_eq!(read_pcm_sample(&[1, 2, 3, 4], 4), 0x8000);
    assert_eq!(read_pcm_sample(&[], 0), 0x8000);
}

#[test]
fn requests_fill_a_buffer_or_the_raw_buffer() {
    assert_eq!(fill_request(BUFFER_SIZE, RAW_BUFFER_SIZE, 2, 2), 3840);
    assert_eq!(fill_request(BUFFER_SIZE, RAW_BUFFER_SIZE, 1, 2), 1920);
    assert_eq!(fill_request(BUFFER_SIZE, RAW_BUFFER_SIZE, 2, 3), 4096);
    assert_eq!(fill_request(BUFFER_SIZE, RAW_BUFFER_SIZE, 0, 2), 0);
    assert_eq!(fill_request(BUFFER_SIZE, RAW_BUFFER_SIZE, 2, 0), 0);
    assert_eq!(fill_request(usize::MAX, RAW_BUFFER_SIZE, u16::MAX, 2), RAW_BUFFER_SIZE);
    assert_eq!(fill_request(2, RAW_BUFFER_SIZE, 2, usize::MAX), RAW_BUFFER_SIZE);
}

#[test]
fn stereo_frames_become_words() {
    let raw = [0x00, 0x00, 0x01, 0x00, 0xff, 0xff, 0x00, 0x80, 9, 9];
    let mut buffer = [1u32; 4];
    assert_eq!(fill_i2s_buffer(Ok(10), &raw, &mut buffer, 2, 2), 2);
    assert_eq!(buffer, [0x8001_8000, 0x0000_7fff, SILENT_WORD, SILENT_WORD]);
}

#[test]
fn mono_samples_go_to_both_sides() {
    let raw = [0x34, 0x12, 0xff, 0x7f];
    let mut buffer = [0u32; 3];
    assert_eq!(fill_i2s_buffer(Ok(4), &raw, &mut buffer, 1, 2), 2);
    assert_eq!(buffer, [0x9234_9234, 0xffff_ffff, SILENT_WORD]);
}

#[test]
fn first_two_of_many_channels_are_heard() {
    let raw = [0x80, 0x40, 0x11, 0xff, 0x00, 0x22];
    let mut buffer = [0u32; 2];
    assert_eq!(fill_i2s_buffer(Ok(6), &raw, &mut buffer, 3, 1), 2);
    assert_eq!(buffer, [0x4000_8000, 0x0000_ff00]);
}

#[test]
fn failed_reads_are_silent() {
    let raw = [1u8; 8];
    let mut buffer = [7u32; 3];
    assert_eq!(fill_i2s_buffer(Err(AudioError::ReadError), &raw, &mut buffer, 1, 1), 0);
    assert_eq!(buffer, [SILENT_WORD; 3]);
}

#[test]
fn frames_of_no_amplitude_sound_like_silence() {
    let mut buffer = [0u32; 1];
    assert_eq!(fill_i2s_buffer(Ok(4), &[0; 4], &mut buffer, 2, 2), 1);
    assert_eq!(buffer, [SILENT_WORD]);
    assert_eq!(fill_i2s_buffer(Ok(6), &[0; 6], &mut buffer, 2, 3), 1);
    assert_eq!(buffer, [SILENT_WORD]);
    assert_eq!(fill_i2s_buffer(Ok(1), &[0x80], &mut buffer, 1, 1), 1);
    assert_eq!(buffer, [SILENT_WORD]);
}

#[test]
fn frames_are_as_long_as_their_samples() {
    let info = |num_channels, bits_per_sample| WavInfo {
        sample_rate: 48_000,
        bits_per_sample,
        num_channels,
    };
    assert_eq!(frame_bytes(info(2, 16)), 4);
    assert_eq!(frame_bytes(info(2, 24)), 6);
    assert_eq!(frame_bytes(info(1, 7)), 0);
    assert_eq!(frame_bytes(info(u16::MAX, u16::MAX)), 65_535 * 8_191);
}

#[test]
fn torn_frames_go_to_the_front() {
    let mut raw = [1, 2, 3, 4, 5, 6, 7, 8];
    assert_eq!(keep_torn(&mut raw, 6, 2, 2), 2);
    assert_eq!(raw, [5, 6, 3, 4, 5, 6, 7, 8]);
    assert_eq!(keep_torn(&mut raw, 3, 2, 2), 3);
    assert_eq!(raw, [5, 6, 3, 4, 5, 6, 7, 8]);
    assert_eq!(keep_torn(&mut raw, 8, 1, 2), 0);
    assert_eq!(raw, [5, 6, 3, 4, 5, 6, 7, 8]);
}
