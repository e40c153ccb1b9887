use match_display::audio::{AudioError, WavAudio, WavInfo};
use match_display::wav_header::{HeaderAction, HeaderParser};

fn le32(v: u32) -> Vec<u8> {
    v.to_le_bytes().to_vec()
}

fn chunk(tag: &[u8], content: &[u8]) -> Vec<u8> {
    let mut out = tag.to_vec();
    out.extend(le32(content.len() as u32));
    out.extend_from_slice(content);
    out
}

fn format(tag: u16, info: WavInfo) -> Vec<u8> {
    let mut out = tag.to_le_bytes().to_vec();
    out.extend(info.num_channels.to_le_bytes());
    out.extend(info.sample_rate.to_le_bytes());
    out.extend([0, 0, 0, 0, 0, 0]);
    out.extend(info.bits_per_sample.to_le_bytes());
    out
}

fn opening() -> Vec<u8> {
    let mut out = b"RIFF".to_vec();
    out.extend(le32(0));
    out.extend(b"WAVE");
    out
}

fn stereo() -> WavInfo {
    WavInfo { sample_rate: 48_000, bits_per_sample: 16, num_channels: 2 }
}

fn audio(info: WavInfo, size: u32) -> Result<WavAudio, AudioError> {
    Ok(WavAudio { info, size })
}

/// Parses a file and returns the outcome, where the reader was left, and the sizes
/// of the reads.
fn parse(file: &[u8]) -> (Result<WavAudio, AudioError>, usize, Vec<usize>) {
    let mut parser = HeaderParser::new();
    let mut pos = 0;
    let mut reads = Vec::new();
    loop {
        match parser.action() {
            HeaderAction::Read { len } => {
                reads.push(len);
                let end = (pos + len).min(file.len());
                parser.feed(Ok(&file[pos..end]));
                pos = end;
            }
            HeaderAction::Done(result) => return (result, pos, reads),
        }
    }
}

#[test]
fn plain_header_is_parsed() {
    let mut file = opening();
    file.extend(chunk(b"fmt ", &format(1, stereo())));
    file.extend(b"data");
    file.extend(le32(4));
    file.extend([1, 2, 3, 4]);
    let (result, pos, reads) = parse(&file);
    assert_eq!(result, audio(stereo(), 4));
    assert_eq!(pos, 44);
    assert_eq!(reads, vec![12, 8, 16, 8]);
}

#[test]
fn other_chunks_are_skipped() {
    let mut file = opening();
    file.extend(chunk(b"LIST", &[7; 200]));
    file.extend(chunk(b"JUNK", &[]));
    file.extend(chunk(b"fmt ", &format(1, stereo())));
    file.extend(chunk(b"fact", &[9; 64]));
    file.extend(b"data");
    file.extend(le32(0));
    let head = file.len();
    file.extend([5; 30]);
    let (result, pos, reads) = parse(&file);
    assert_eq!(result, audio(stereo(), 0));
    assert_eq!(pos, head);
    assert_eq!(reads, vec![12, 8, 64, 64, 64, 8, 8, 8, 16, 8, 64, 8]);
}

#[test]
fn last_format_before_the_data_counts() {
    let mono = WavInfo { sample_rate: 8_000, bits_per_sample: 8, num_channels: 1 };
    let mut file = opening();
    file.extend(chunk(b"fmt ", &format(1, stereo())));
    file.extend(chunk(b"fmt ", &format(1, mono)));
    file.extend(chunk(b"data", &[]));
    assert_eq!(parse(&file).0, audio(mono, 0));
}

#[test]
fn a_format_chunk_may_be_longer_than_the_format() {
    let file = b"RIFF\0\0\0\0WAVEfmt \x12\0\0\0\x01\0\x01\0\x80\xBB\0\0\0\x77\x01\0\x02\0\x10\0\0\0data\x02\0\0\0\0\0";
    let mono = WavInfo { sample_rate: 48_000, bits_per_sample: 16, num_channels: 1 };
    let (result, pos, reads) = parse(file);
    assert_eq!(result, audio(mono, 2));
    assert_eq!(pos, file.len() - 2);
    assert_eq!(reads, vec![12, 8, 18, 8]);

    for extra in [1, 23, 24, 25, 100, 200] {
        let mut body = format(1, stereo());
        body.extend(vec![0xee; extra]);
        let mut file = opening();
        file.extend(chunk(b"fmt ", &body));
        file.extend(chunk(b"data", &[1, 2, 3]));
        let (result, pos, _) = parse(&file);
        assert_eq!(result, audio(stereo(), 3), "{extra} bytes");
        assert_eq!(pos, file.len() - 3, "{extra} bytes");
    }
}

#[test]
fn a_short_format_chunk_leaves_what_the_buffer_held() {
    // A format chunk of four bytes leaves its own size where the rate is read.
    let mut file = opening();
    file.extend(chunk(b"fmt ", &[1, 0, 2, 0]));
    file.extend(chunk(b"data", &[]));
    let expected = WavInfo { sample_rate: 4, bits_per_sample: 0, num_channels: 2 };
    assert_eq!(parse(&file).0, audio(expected, 0));

    // One of two bytes leaves the end of its tag where the channels are read.
    let mut file = opening();
    file.extend(chunk(b"fmt ", &[1, 0]));
    file.extend(chunk(b"data", &[]));
    let expected = WavInfo { sample_rate: 2, bits_per_sample: 0, num_channels: 0x2074 };
    assert_eq!(parse(&file).0, audio(expected, 0));

    // Behind another format chunk the rest of that one counts.
    let mut file = opening();
    file.extend(chunk(b"fmt ", &format(1, stereo())));
    file.extend(chunk(b"fmt ", &[1, 0, 1, 0, 0x40, 0x1f, 0, 0]));
    file.extend(chunk(b"data", &[]));
    let expected = WavInfo { sample_rate: 8_000, bits_per_sample: 16, num_channels: 1 };
    assert_eq!(parse(&file).0, audio(expected, 0));

    // One of fewer bytes still holds its tag where the kind of audio is read.
    for len in 0..2 {
        let mut file = opening();
        file.extend(chunk(b"fmt ", &[1, 0][..len]));
        file.extend(chunk(b"data", &[]));
        assert_eq!(parse(&file).0, Err(AudioError::UnsupportedFormat), "{len} bytes");
    }
}

#[test]
fn files_of_other_kinds_are_invalid() {
    assert_eq!(parse(b"").0, Err(AudioError::InvalidWav));
    assert_eq!(parse(b"RIFF").0, Err(AudioError::InvalidWav));
    assert_eq!(parse(b"RIFX\0\0\0\0WAVE").0, Err(AudioError::InvalidWav));
    assert_eq!(parse(b"RIFF\0\0\0\0AVI ").0, Err(AudioError::InvalidWav));
}

#[test]
fn missing_chunks_are_invalid() {
    let mut no_data = opening();
    no_data.extend(chunk(b"fmt ", &format(1, stereo())));
    assert_eq!(parse(&no_data).0, Err(AudioError::InvalidWav));

    let mut no_format = opening();
    no_format.extend(chunk(b"data", &[0; 8]));
    assert_eq!(parse(&no_format).0, Err(AudioError::InvalidWav));

    assert_eq!(parse(&opening()).0, Err(AudioError::InvalidWav));
}

#[test]
fn compressed_audio_is_unsupported() {
    let mut file = opening();
    file.extend(chunk(b"fmt ", &format(2, stereo())));
    file.extend(chunk(b"data", &[]));
    let (result, pos, _) = parse(&file);
    assert_eq!(result, Err(AudioError::UnsupportedFormat));
    assert_eq!(pos, 36);
}

#[test]
fn read_errors_end_the_parsing() {
    let mut parser = HeaderParser::new();
    parser.feed(Ok(&opening()));
    parser.feed(Err(AudioError::ReadError));
    assert_eq!(parser.action(), HeaderAction::Done(Err(AudioError::ReadError)));
}
