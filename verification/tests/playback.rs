use match_display::audio::{AudioError, WavInfo};
use match_display::pcm::{BUFFER_SIZE, RAW_BUFFER_SIZE, SILENT_WORD};
use match_display::playback::{Fill, PlayAction, PlayEvent, WavPlayback};
use match_display::sd_card::FileMode;
use match_display::stream::fill_from_raw;

fn wav(channels: u16, bits: u16, audio: &[u8]) -> Vec<u8> {
    let mut out = b"RIFF\0\0\0\0WAVEfmt ".to_vec();
    out.extend(16u32.to_le_bytes());
    out.extend(1u16.to_le_bytes());
    out.extend(channels.to_le_bytes());
    out.extend(48_000u32.to_le_bytes());
    out.extend([0; 6]);
    out.extend(bits.to_le_bytes());
    out.extend(b"data");
    out.extend((audio.len() as u32).to_le_bytes());
    out.extend_from_slice(audio);
    out
}

struct Card<'a> {
    file: &'a [u8],
    pos: usize,
    raw: Vec<u8>,
}

impl<'a> Card<'a> {
    fn new(file: &'a [u8]) -> Card<'a> {
        Card { file, pos: 0, raw: vec![0; RAW_BUFFER_SIZE] }
    }

    fn read(&mut self, start: usize, len: usize) -> usize {
        let n = len.min(self.file.len() - self.pos);
        self.raw[start..start + n].copy_from_slice(&self.file[self.pos..self.pos + n]);
        self.pos += n;
        n
    }

    fn fill(&mut self, fill: Fill, buffer: &mut [u32]) -> PlayEvent<'static> {
        let n = self.read(fill.kept, fill.len);
        fill_from_raw(fill, Ok(n), &mut self.raw, buffer);
        PlayEvent::AudioRead(Ok(n))
    }
}

/// Plays a file and returns the outcome and the buffers that were heard.
fn play(file: &[u8]) -> (Result<(), AudioError>, Vec<Vec<u32>>) {
    let mut card = Card::new(file);
    let mut buffers = [vec![0u32; BUFFER_SIZE], vec![0u32; BUFFER_SIZE]];
    let mut heard = Vec::new();
    let mut playback = WavPlayback::new("AUDIO.WAV");
    loop {
        playback = match playback.action() {
            PlayAction::OpenVolume { .. }
            | PlayAction::OpenRootDir
            | PlayAction::OpenFile { .. } => {
                playback.next(PlayEvent::Opened)
            }
            PlayAction::ReadHeader { len } => {
                let n = card.read(0, len);
                playback.next(PlayEvent::HeaderRead(Ok(&card.raw[..n])))
            }
            PlayAction::FillFront { fill, swapped } => {
                let event = card.fill(fill, &mut buffers[swapped as usize]);
                playback.next(event)
            }
            PlayAction::PlayFrontFillBack { fill, swapped } => {
                heard.push(buffers[swapped as usize].clone());
                let event = card.fill(fill, &mut buffers[!swapped as usize]);
                playback.next(event)
            }
            PlayAction::Done(result) => return (result, heard),
        }
    }
}

#[test]
fn every_frame_is_heard_once_and_in_order() {
    let frames: Vec<u16> = (0..2000).collect();
    let audio: Vec<u8> =
        frames.iter().flat_map(|f| [f.to_le_bytes(), (f + 1).to_le_bytes()].concat()).collect();
    let (result, heard) = play(&wav(2, 16, &audio));
    assert_eq!(result, Ok(()));
    assert_eq!(heard.len(), 3);
    let words: Vec<u32> = heard.concat();
    for (i, word) in words.iter().enumerate() {
        let expected = if i < 2000 {
            (0x8000 + i as u32) + 0x1_0000 * (0x8000 + i as u32 + 1)
        } else {
            SILENT_WORD
        };
        assert_eq!(*word, expected, "word {i}");
    }
}

#[test]
fn a_full_last_buffer_is_the_last() {
    let (result, heard) = play(&wav(1, 16, &[1u8; 2 * 2 * BUFFER_SIZE]));
    assert_eq!(result, Ok(()));
    assert_eq!(heard.len(), 2);
    assert!(heard.concat().iter().all(|w| *w == 0x8101_8101));
}

#[test]
fn frames_torn_by_the_raw_buffer_are_heard() {
    // Six bytes a frame do not divide the raw buffer: it holds 682 frames and four
    // bytes of the next.
    let word = |i: u32| (0x8000 + i) + 0x1_0000 * (0x8000 + 2 * i);
    let audio: Vec<u8> = (0..2000u32)
        .flat_map(|i| {
            let [l0, l1, ..] = i.to_le_bytes();
            let [r0, r1, ..] = (2 * i).to_le_bytes();
            [0xaa, l0, l1, 0xbb, r0, r1]
        })
        .collect();
    let (result, heard) = play(&wav(2, 24, &audio));
    assert_eq!(result, Ok(()));
    assert_eq!(heard.len(), 3);
    for (k, buffer) in heard.iter().enumerate() {
        assert_eq!(buffer.len(), BUFFER_SIZE);
        for (i, found) in buffer.iter().enumerate() {
            let frame = 682 * k + i;
            let expected =
                if i < 682 && frame < 2000 { word(frame as u32) } else { SILENT_WORD };
            assert_eq!(*found, expected, "word {i} of buffer {k}");
        }
    }
}

#[test]
fn only_the_data_chunk_is_played() {
    let file = b"RIFF\0\0\0\0WAVEfmt \x10\0\0\0\x01\0\x01\0\x80\xBB\0\0\0\x77\x01\0\x02\0\x10\0data\x02\0\0\0\x34\x12LIST\0\0\0\0";
    let (result, heard) = play(file);
    assert_eq!(result, Ok(()));
    assert_eq!(heard.len(), 1);
    assert_eq!(heard[0][0], 0x9234_9234);
    assert_eq!(heard[0][1..], vec![SILENT_WORD; BUFFER_SIZE - 1]);

    let mut long = wav(1, 16, &[1u8; 2 * BUFFER_SIZE]);
    long.extend([7; 5000]);
    let (result, heard) = play(&long);
    assert_eq!(result, Ok(()));
    assert_eq!(heard, vec![vec![0x8101_8101; BUFFER_SIZE]]);
}

#[test]
fn a_data_chunk_longer_than_the_file_ends_with_it() {
    let mut file = wav(1, 16, &[1u8; 20]);
    file[40..44].copy_from_slice(&u32::MAX.to_le_bytes());
    let (result, heard) = play(&file);
    assert_eq!(result, Ok(()));
    assert_eq!(heard.len(), 1);
    assert_eq!(heard[0][..11], [[0x8101_8101; 10].to_vec(), vec![SILENT_WORD]].concat());
}

#[test]
fn a_file_without_a_frame_is_invalid() {
    assert_eq!(play(&wav(2, 16, &[])), (Err(AudioError::InvalidWav), vec![]));
    assert_eq!(play(&wav(2, 16, &[1, 2, 3])), (Err(AudioError::InvalidWav), vec![]));
}

#[test]
fn a_refused_header_is_not_heard() {
    assert_eq!(play(b"not a wav file"), (Err(AudioError::InvalidWav), vec![]));
}

#[test]
fn what_cannot_be_opened_is_reported() {
    let playback = WavPlayback::new("AUDIO.WAV");
    assert_eq!(playback.action(), PlayAction::OpenVolume { volume: 0 });
    let end = playback.next(PlayEvent::NotOpened);
    assert_eq!(end.action(), PlayAction::Done(Err(AudioError::ReadError)));

    let playback = WavPlayback::new("AUDIO.WAV").next(PlayEvent::Opened);
    assert_eq!(playback.action(), PlayAction::OpenRootDir);
    let end = playback.next(PlayEvent::NotOpened);
    assert_eq!(end.action(), PlayAction::Done(Err(AudioError::ReadError)));

    let playback = WavPlayback::new("AUDIO.WAV").next(PlayEvent::Opened).next(PlayEvent::Opened);
    assert_eq!(
        playback.action(),
        PlayAction::OpenFile { name: "AUDIO.WAV", mode: FileMode::ReadOnly },
    );
    let end = playback.next(PlayEvent::NotOpened);
    assert_eq!(end.action(), PlayAction::Done(Err(AudioError::FileNotFound)));
}

#[test]
fn a_failed_header_read_is_reported() {
    let playback = WavPlayback::new("AUDIO.WAV")
        .next(PlayEvent::Opened)
        .next(PlayEvent::Opened)
        .next(PlayEvent::Opened)
        .next(PlayEvent::HeaderRead(Err(AudioError::ReadError)));
    assert_eq!(playback.action(), PlayAction::Done(Err(AudioError::ReadError)));
}

#[test]
fn a_failed_audio_read_ends_the_playback() {
    let file = wav(2, 16, &[7; 4000]);
    let playing = || {
        let mut card = Card::new(&file);
        let mut playback = WavPlayback::new("AUDIO.WAV")
            .next(PlayEvent::Opened)
            .next(PlayEvent::Opened)
            .next(PlayEvent::Opened);
        while let PlayAction::ReadHeader { len } = playback.action() {
            let n = card.read(0, len);
            playback = playback.next(PlayEvent::HeaderRead(Ok(&card.raw[..n])));
        }
        playback
    };
    let failed = || PlayEvent::AudioRead(Err(AudioError::ReadError));

    let front = playing();
    assert!(matches!(
        front.action(),
        PlayAction::FillFront { fill: Fill { kept: 0, len: 3840, .. }, swapped: false },
    ));
    assert_eq!(front.next(failed()).action(), PlayAction::Done(Err(AudioError::InvalidWav)));

    let back = playing().next(PlayEvent::AudioRead(Ok(3840)));
    assert!(matches!(
        back.action(),
        PlayAction::PlayFrontFillBack { fill: Fill { kept: 0, len: 160, .. }, swapped: false },
    ));
    assert_eq!(back.next(failed()).action(), PlayAction::Done(Ok(())));
}

#[test]
fn a_short_read_keeps_its_torn_frame() {
    let file = wav(2, 16, &[7; 4000]);
    let mut card = Card::new(&file);
    let mut playback = WavPlayback::new("AUDIO.WAV")
        .next(PlayEvent::Opened)
        .next(PlayEvent::Opened)
        .next(PlayEvent::Opened);
    while let PlayAction::ReadHeader { len } = playback.action() {
        let n = card.read(0, len);
        playback = playback.next(PlayEvent::HeaderRead(Ok(&card.raw[..n])));
    }
    let playback = playback.next(PlayEvent::AudioRead(Ok(1003)));
    assert!(matches!(
        playback.action(),
        PlayAction::PlayFrontFillBack { fill: Fill { kept: 3, len: 2997, .. }, swapped: false },
    ));
    let playback = playback.next(PlayEvent::AudioRead(Ok(1)));
    assert!(matches!(
        playback.action(),
        PlayAction::PlayFrontFillBack { fill: Fill { kept: 0, len: 2996, .. }, swapped: true },
    ));
}

#[test]
fn raw_bytes_fill_a_buffer_and_leave_a_torn_frame() {
    let info = WavInfo { sample_rate: 48_000, bits_per_sample: 16, num_channels: 2 };
    let fill = Fill { info, kept: 2, len: 8 };
    let mut raw = vec![0xeeu8; RAW_BUFFER_SIZE];
    raw[..9].copy_from_slice(&[0, 0, 1, 0, 2, 0, 3, 0, 9]);
    let before = raw.clone();
    let mut buffer = vec![5u32; BUFFER_SIZE];

    assert_eq!(fill_from_raw(fill, Err(AudioError::ReadError), &mut raw, &mut buffer), 2);
    assert_eq!(buffer, vec![SILENT_WORD; BUFFER_SIZE]);
    assert_eq!(raw, before);

    assert_eq!(fill_from_raw(fill, Ok(7), &mut raw, &mut buffer), 1);
    assert_eq!(buffer[..3], [0x8001_8000, 0x8003_8002, SILENT_WORD]);
    assert_eq!(raw[0], 9);
    assert_eq!(raw[1..], before[1..]);
}
