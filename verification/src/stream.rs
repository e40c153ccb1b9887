//! What is heard when a file is played.

use crate::audio::{AudioError, WavInfo};
use crate::bytes::least;
use crate::pcm::{
    each_word_plays_its_frame, fill_bytes, fill_i2s_buffer, filled, frame_len, frame_of,
    keep_torn, sample, torn_frame, torn_frame_is_the_rest, word, words_hold_their_samples,
    BUFFER_SIZE, RAW_BUFFER_SIZE, SILENT_WORD,
};
use crate::playback::{
    AudioRest, Fill, PlayActionModel, PlayEventModel, PlayModel, PlayStage,
};
use crate::wav_file::{distance, left_to_skip, parsed, read_at, run};
use crate::wav_header::{HeaderModel, HeaderStage};
use vstd::prelude::*;

verus! {

/// The bytes of a data chunk of size `size` whose content starts at `start`, as far
/// as the file goes.
pub open spec fn data_bytes(file: Seq<u8>, start: int, size: int) -> Seq<u8> {
    read_at(file, start, size)
}

/// The part of `audio` that goes through the raw buffer for the next output buffer.
pub open spec fn next_read(audio: Seq<u8>, info: WavInfo) -> Seq<u8> {
    audio.take(least(fill_bytes(info), audio.len() as int))
}

/// The number of frames in the next output buffer.
pub open spec fn next_frames(audio: Seq<u8>, info: WavInfo) -> int {
    next_read(audio, info).len() as int / frame_of(info)
}

/// An output buffer that plays the whole frames of `bytes`.
pub open spec fn buffer_of(bytes: Seq<u8>, info: WavInfo) -> Seq<u32> {
    filled(
        bytes,
        BUFFER_SIZE as nat,
        info.num_channels as int,
        info.bits_per_sample as int / 8,
    )
}

/// The buffers that `audio` fills, until no whole frame is left. Each goes on at the
/// frame behind the last one of the buffer before.
pub open spec fn buffers(audio: Seq<u8>, info: WavInfo) -> Seq<Seq<u32>>
    decreases audio.len(),
    via buffers_end
{
    let frames = next_frames(audio, info);
    if !(frame_of(info) > 0) {
        arbitrary()
    } else if frames == 0 {
        Seq::empty()
    } else {
        seq![buffer_of(next_read(audio, info), info)] + buffers(
            audio.skip(frames * frame_of(info)),
            info,
        )
    }
}

/// What playing `audio` comes to: every buffer that it fills is played, and a file
/// without a whole frame of audio is invalid.
pub open spec fn played(audio: Seq<u8>, info: WavInfo) -> (Result<(), AudioError>, Seq<Seq<u32>>) {
    let all = buffers(audio, info);
    (
        if all.len() == 0 {
            Err(AudioError::InvalidWav)
        } else {
            Ok(())
        },
        all,
    )
}

/// The words for all the whole frames of `audio`.
pub open spec fn all_words(audio: Seq<u8>, info: WavInfo) -> Seq<u32> {
    Seq::new(
        (audio.len() as int / frame_of(info)) as nat,
        |i: int|
            word(
                audio,
                i * frame_of(info),
                info.num_channels as int,
                info.bits_per_sample as int / 8,
            ) as u32,
    )
}

/// The words of the buffers that `audio` fills, without the silence behind the frames
/// of each.
pub open spec fn heard(audio: Seq<u8>, info: WavInfo) -> Seq<u32>
    decreases audio.len(),
    via heard_end
{
    let frames = next_frames(audio, info);
    if !(frame_of(info) > 0) {
        arbitrary()
    } else if frames == 0 {
        Seq::empty()
    } else {
        buffer_of(next_read(audio, info), info).take(frames) + heard(
            audio.skip(frames * frame_of(info)),
            info,
        )
    }
}

/// The number of frames in every output buffer but the last.
pub open spec fn frames_per_buffer(info: WavInfo) -> int {
    fill_bytes(info) / frame_of(info)
}

/// How whole frames lie in `len` bytes.
proof fn whole_frames(len: int, frame: int)
    requires
        len >= 0,
        frame > 0,
    ensures
        0 <= len / frame,
        0 <= (len / frame) * frame <= len < (len / frame) * frame + frame,
        len % frame == len - (len / frame) * frame,
        len < frame ==> len / frame == 0,
        len >= frame ==> len / frame >= 1,
{
    assert(0 <= len / frame && 0 <= (len / frame) * frame <= len < (len / frame) * frame + frame
        && len % frame == len - (len / frame) * frame && (len < frame ==> len / frame == 0) && (len
        >= frame ==> len / frame >= 1)) by (nonlinear_arith)
        requires
            len >= 0,
            frame > 0,
    ;
}

/// What the next output buffer takes: whole frames, as many as there are or as one
/// buffer holds.
proof fn buffer_takes_whole_frames(audio: Seq<u8>, info: WavInfo)
    requires
        frame_of(info) > 0,
    ensures
        0 <= fill_bytes(info),
        0 <= frames_per_buffer(info) <= BUFFER_SIZE,
        next_frames(audio, info) == least(
            frames_per_buffer(info),
            audio.len() as int / frame_of(info),
        ),
        0 <= next_frames(audio, info) * frame_of(info) <= next_read(audio, info).len()
            <= audio.len(),
        next_frames(audio, info) > 0 ==> next_frames(audio, info) * frame_of(info) > 0,
        frame_of(info) <= RAW_BUFFER_SIZE ==> frames_per_buffer(info) >= 1,
        BUFFER_SIZE * frame_of(info) <= RAW_BUFFER_SIZE ==> frames_per_buffer(info) == BUFFER_SIZE,
{
    let frame = frame_of(info);
    let full = fill_bytes(info);
    let len = audio.len() as int;
    let whole = BUFFER_SIZE * frame;
    assert(whole >= frame && whole / frame == BUFFER_SIZE && (full <= whole ==> full / frame
        <= whole / frame) && (full <= len ==> full / frame <= len / frame) && (len <= full ==> len
        / frame <= full / frame)) by (nonlinear_arith)
        requires
            frame > 0,
            whole == BUFFER_SIZE * frame,
    ;
    whole_frames(full, frame);
    whole_frames(len, frame);
    whole_frames(next_read(audio, info).len() as int, frame);
    let frames = next_frames(audio, info);
    assert(frames > 0 ==> frames * frame > 0) by (nonlinear_arith)
        requires
            frame > 0,
    ;
}

#[via_fn]
proof fn buffers_end(audio: Seq<u8>, info: WavInfo) {
    if frame_of(info) > 0 {
        buffer_takes_whole_frames(audio, info);
    }
}

#[via_fn]
proof fn heard_end(audio: Seq<u8>, info: WavInfo) {
    if frame_of(info) > 0 {
        buffer_takes_whole_frames(audio, info);
    }
}

/// Fills `buffer` for a reading whose read gave `got`: with the whole frames of what
/// `raw_buf` then holds, and silence behind them. What is torn is moved to the front of
/// `raw_buf`, and its length is returned. A read that failed leaves silence alone.
pub fn fill_from_raw(
    fill: Fill,
    got: Result<usize, AudioError>,
    raw_buf: &mut [u8],
    buffer: &mut [u32],
) -> (torn: usize)
    requires
        frame_of(fill.info) > 0,
        old(raw_buf)@.len() == RAW_BUFFER_SIZE,
        old(buffer)@.len() == BUFFER_SIZE,
        fill.kept + fill.len <= fill_bytes(fill.info),
        got is Ok ==> got->Ok_0 <= fill.len,
    ensures
        got is Ok ==> ({
            let raw = old(raw_buf)@.take(fill.kept + got->Ok_0);
            &&& final(buffer)@ == buffer_of(raw, fill.info)
            &&& torn == kept_of(raw, fill.info).len()
            &&& final(raw_buf)@ == kept_of(raw, fill.info) + old(raw_buf)@.skip(torn as int)
            &&& final(raw_buf)@.take(torn as int) == kept_of(raw, fill.info)
        }),
        got is Err ==> ({
            &&& final(buffer)@ == Seq::new(BUFFER_SIZE as nat, |i: int| SILENT_WORD)
            &&& torn == fill.kept
            &&& final(raw_buf)@ == old(raw_buf)@
        }),
{
    let channels = fill.info.num_channels;
    let bytes = fill.info.bytes_per_sample();
    let ghost frame = frame_of(fill.info);
    assert(frame <= 65535 * 8191) by (nonlinear_arith)
        requires
            frame == channels * bytes,
            channels <= 65535,
            bytes <= 8191,
    ;
    match got {
        Ok(n) => {
            let have: usize = fill.kept + n;
            let _ = fill_i2s_buffer(Ok(have), raw_buf, buffer, channels, bytes);
            let torn = keep_torn(raw_buf, have, channels, bytes);
            assert(raw_buf@.take(torn as int) =~= kept_of(
                old(raw_buf)@.take(have as int),
                fill.info,
            ));
            torn
        },
        Err(e) => {
            let _ = fill_i2s_buffer(Err(e), raw_buf, buffer, channels, bytes);
            proof {
                whole_frames(0, frame);
                assert(buffer@ =~= Seq::new(BUFFER_SIZE as nat, |i: int| SILENT_WORD));
            }
            fill.kept
        },
    }
}

/// Filling for the reading that a playback asks for plays what [`play`] plays: the
/// reading meets what [`fill_from_raw`] requires, and as much stays torn as the
/// playback then counts on.
pub proof fn fill_follows_playback(
    rest: AudioRest,
    file: Seq<u8>,
    pos: int,
    kept: Seq<u8>,
)
    requires
        0 <= pos <= file.len(),
        frame_of(rest.info) > 0,
        rest.valid(),
        rest.kept == kept.len(),
    ensures
        ({
            let n = read_at(file, pos, rest.wanted()).len() as int;
            let raw = raw_after(rest, file, pos, kept);
            &&& rest.kept + rest.wanted() <= fill_bytes(rest.info)
            &&& 0 <= n <= rest.wanted()
            &&& raw.len() == rest.kept + n
            &&& rest.after(n).kept == kept_of(raw, rest.info).len()
        }),
{
    read_moves_on(rest, file, pos, kept);
}

pub open spec fn play_distance(stage: PlayStage) -> int {
    match stage {
        PlayStage::OpenVolume => 6,
        PlayStage::OpenRootDir => 5,
        PlayStage::OpenFile => 4,
        PlayStage::Header => 3,
        PlayStage::FillFront(_) => 2,
        PlayStage::Play(_) => 1,
        PlayStage::Finished(_) => 0,
    }
}

/// Whether the frames have a length, the reader is within the file, and `kept` is
/// what the raw buffer holds of a torn frame.
pub open spec fn playable(m: PlayModel, file: Seq<u8>, pos: int, kept: Seq<u8>) -> bool {
    &&& 0 <= pos <= file.len()
    &&& m.valid()
    &&& match m.stage {
        PlayStage::FillFront(rest) | PlayStage::Play(rest) => frame_of(rest.info) > 0 && rest.kept
            == kept.len(),
        PlayStage::Finished(_) => true,
        _ => kept.len() == 0,
    }
}

/// What the raw buffer holds after the next read.
pub open spec fn raw_after(rest: AudioRest, file: Seq<u8>, pos: int, kept: Seq<u8>) -> Seq<u8> {
    kept + read_at(file, pos, rest.wanted())
}

/// What is kept of `raw` for the read after it.
pub open spec fn kept_of(raw: Seq<u8>, info: WavInfo) -> Seq<u8> {
    torn_frame(raw, info.num_channels as int, info.bits_per_sample as int / 8)
}

/// The outcome of a playback in state `m` whose actions are carried out one after the
/// other on a file that can be opened and is read from `pos` on, and the buffers that
/// are played, in order. `kept` is what the raw
/// buffer holds of a torn frame. `first` and `second` are what the two output buffers
/// hold; the first is in front unless they are swapped.
///
/// A file whose frames have no length cannot be played, and nothing is said of it.
pub open spec fn play(
    m: PlayModel,
    file: Seq<u8>,
    pos: int,
    kept: Seq<u8>,
    first: Seq<u32>,
    second: Seq<u32>,
) -> (Result<(), AudioError>, Seq<Seq<u32>>)
    decreases
        file.len() - pos,
        play_distance(m.stage),
        distance(m.header.stage),
        left_to_skip(m.header.stage),
    via play_ends
{
    if !playable(m, file, pos, kept) {
        arbitrary()
    } else {
        match m.action() {
            PlayActionModel::OpenVolume { .. }
            | PlayActionModel::OpenRootDir
            | PlayActionModel::OpenFile { .. } => play(
                m.after(PlayEventModel::Opened),
                file,
                pos,
                kept,
                first,
                second,
            ),
            PlayActionModel::ReadHeader { len } => {
                let got = read_at(file, pos, len);
                play(
                    m.after(PlayEventModel::HeaderRead(Ok(got))),
                    file,
                    pos + got.len(),
                    kept,
                    first,
                    second,
                )
            },
            PlayActionModel::FillFront { fill, swapped } => {
                let got = read_at(file, pos, fill.len);
                let raw = kept.take(fill.kept) + got;
                let next = m.after(PlayEventModel::AudioRead(Ok(got.len())));
                let end = pos + got.len();
                let torn = kept_of(raw, fill.info);
                let front = buffer_of(raw, fill.info);
                if swapped {
                    play(next, file, end, torn, first, front)
                } else {
                    play(next, file, end, torn, front, second)
                }
            },
            PlayActionModel::PlayFrontFillBack { fill, swapped } => {
                let got = read_at(file, pos, fill.len);
                let raw = kept.take(fill.kept) + got;
                let next = m.after(PlayEventModel::AudioRead(Ok(got.len())));
                let end = pos + got.len();
                let torn = kept_of(raw, fill.info);
                let back = buffer_of(raw, fill.info);
                let (front, later) = if swapped {
                    (second, play(next, file, end, torn, back, second))
                } else {
                    (first, play(next, file, end, torn, first, back))
                };
                (later.0, seq![front] + later.1)
            },
            PlayActionModel::Done(result) => (result, Seq::empty()),
        }
    }
}

/// A read that completes a frame moves the reader on.
proof fn read_moves_on(rest: AudioRest, file: Seq<u8>, pos: int, kept: Seq<u8>)
    requires
        0 <= pos <= file.len(),
        frame_of(rest.info) > 0,
        rest.valid(),
        rest.kept == kept.len(),
    ensures
        ({
            let n = read_at(file, pos, rest.wanted()).len() as int;
            &&& 0 <= n <= rest.wanted()
            &&& pos + n <= file.len()
            &&& rest.frames(n) > 0 ==> n > 0
            &&& rest.after(n).kept == kept_of(raw_after(rest, file, pos, kept), rest.info).len()
            &&& rest.after(n).valid()
        }),
{
    let n = read_at(file, pos, rest.wanted()).len() as int;
    whole_frames(rest.kept + n, frame_of(rest.info));
    whole_frames(rest.kept as int, frame_of(rest.info));
}

#[via_fn]
proof fn play_ends(
    m: PlayModel,
    file: Seq<u8>,
    pos: int,
    kept: Seq<u8>,
    first: Seq<u32>,
    second: Seq<u32>,
) {
    if playable(m, file, pos, kept) {
        match m.stage {
            PlayStage::FillFront(rest) | PlayStage::Play(rest) => {
                read_moves_on(rest, file, pos, kept);
            },
            _ => {},
        }
    }
}

/// The audio that a playback has before it.
pub open spec fn audio_ahead(rest: AudioRest, file: Seq<u8>, pos: int, kept: Seq<u8>) -> Seq<u8> {
    kept + data_bytes(file, pos, rest.left as int)
}

/// A read brings the next bytes of the audio into the raw buffer, and what is torn
/// stays ahead.
proof fn read_takes_next(rest: AudioRest, file: Seq<u8>, pos: int, kept: Seq<u8>)
    requires
        0 <= pos <= file.len(),
        frame_of(rest.info) > 0,
        rest.valid(),
        rest.kept == kept.len(),
    ensures
        ({
            let n = read_at(file, pos, rest.wanted()).len() as int;
            let raw = raw_after(rest, file, pos, kept);
            let audio = audio_ahead(rest, file, pos, kept);
            let frames = next_frames(audio, rest.info);
            &&& raw == next_read(audio, rest.info)
            &&& rest.frames(n) == frames
            &&& audio_ahead(rest.after(n), file, pos + n, kept_of(raw, rest.info)) == audio.skip(
                frames * frame_of(rest.info),
            )
        }),
{
    let n = read_at(file, pos, rest.wanted()).len() as int;
    let raw = raw_after(rest, file, pos, kept);
    let audio = audio_ahead(rest, file, pos, kept);
    let frames = next_frames(audio, rest.info);
    read_moves_on(rest, file, pos, kept);
    buffer_takes_whole_frames(audio, rest.info);
    assert(raw =~= next_read(audio, rest.info));
    whole_frames(raw.len() as int, frame_of(rest.info));
    assert(audio_ahead(rest.after(n), file, pos + n, kept_of(raw, rest.info)) =~= audio.skip(
        frames * frame_of(rest.info),
    ));
}

/// While the front buffer is played the next ones follow it.
proof fn play_plays_buffers(
    m: PlayModel,
    file: Seq<u8>,
    pos: int,
    kept: Seq<u8>,
    first: Seq<u32>,
    second: Seq<u32>,
)
    requires
        m.stage is Play,
        playable(m, file, pos, kept),
    ensures
        play(m, file, pos, kept, first, second) == (
            Ok::<(), AudioError>(()),
            seq![
                if m.swapped {
                    second
                } else {
                    first
                },
            ] + buffers(audio_ahead(m.stage->Play_0, file, pos, kept), m.stage->Play_0.info),
        ),
    decreases file.len() - pos,
{
    let rest = m.stage->Play_0;
    let info = rest.info;
    let audio = audio_ahead(rest, file, pos, kept);
    read_moves_on(rest, file, pos, kept);
    read_takes_next(rest, file, pos, kept);
    let got = read_at(file, pos, rest.wanted());
    let raw = raw_after(rest, file, pos, kept);
    let next = m.after(PlayEventModel::AudioRead(Ok(got.len())));
    let back = buffer_of(raw, info);
    let (one, two) = if m.swapped {
        (back, second)
    } else {
        (first, back)
    };
    let front = if m.swapped {
        second
    } else {
        first
    };
    buffer_takes_whole_frames(audio, info);
    assert(kept.take(rest.kept as int) =~= kept);
    if next_frames(audio, info) > 0 {
        play_plays_buffers(next, file, pos + got.len(), kept_of(raw, info), one, two);
    } else {
        assert(play(next, file, pos + got.len(), kept_of(raw, info), one, two) == (
            Ok::<(), AudioError>(()),
            Seq::<Seq<u32>>::empty(),
        ));
    }
    assert(play(m, file, pos, kept, first, second).1 =~= seq![front] + buffers(audio, info));
}

/// The first buffer decides whether anything is played.
proof fn fill_front_plays_buffers(
    m: PlayModel,
    file: Seq<u8>,
    pos: int,
    first: Seq<u32>,
    second: Seq<u32>,
)
    requires
        m.stage is FillFront,
        playable(m, file, pos, Seq::empty()),
    ensures
        play(m, file, pos, Seq::empty(), first, second) == played(
            data_bytes(file, pos, m.stage->FillFront_0.left as int),
            m.stage->FillFront_0.info,
        ),
{
    let rest = m.stage->FillFront_0;
    let info = rest.info;
    let kept = Seq::<u8>::empty();
    let audio = audio_ahead(rest, file, pos, kept);
    assert(audio =~= data_bytes(file, pos, rest.left as int));
    read_moves_on(rest, file, pos, kept);
    read_takes_next(rest, file, pos, kept);
    let got = read_at(file, pos, rest.wanted());
    let raw = raw_after(rest, file, pos, kept);
    let next = m.after(PlayEventModel::AudioRead(Ok(got.len())));
    let front = buffer_of(raw, info);
    let (one, two) = if m.swapped {
        (first, front)
    } else {
        (front, second)
    };
    buffer_takes_whole_frames(audio, info);
    assert(kept.take(rest.kept as int) =~= kept);
    if next_frames(audio, info) > 0 {
        play_plays_buffers(next, file, pos + got.len(), kept_of(raw, info), one, two);
    } else {
        assert(play(next, file, pos + got.len(), kept_of(raw, info), one, two) == (
            Err::<(), AudioError>(AudioError::InvalidWav),
            Seq::<Seq<u32>>::empty(),
        ));
    }
    assert(play(m, file, pos, kept, first, second).1 =~= buffers(audio, info));
}

proof fn header_leads_to_audio(
    m: PlayModel,
    file: Seq<u8>,
    pos: int,
    first: Seq<u32>,
    second: Seq<u32>,
)
    requires
        m.stage is Header,
        playable(m, file, pos, Seq::empty()),
        run(m.header, file, pos).0 matches Ok(audio) ==> frame_of(audio.info) > 0,
    ensures
        play(m, file, pos, Seq::empty(), first, second) == (match run(m.header, file, pos) {
            (Ok(audio), start) => played(
                data_bytes(file, start, audio.size as int),
                audio.info,
            ),
            (Err(e), _) => (Err(e), Seq::empty()),
        }),
    decreases file.len() - pos, distance(m.header.stage), left_to_skip(m.header.stage),
{
    let got = read_at(file, pos, m.header.wanted());
    let next = m.after(PlayEventModel::HeaderRead(Ok(got)));
    let end = pos + got.len();
    let kept = Seq::<u8>::empty();
    assert(play(m, file, pos, kept, first, second) == play(next, file, end, kept, first, second));
    assert(run(m.header, file, pos) == run(next.header, file, end));
    match next.header.stage {
        HeaderStage::Finished(Ok(audio)) => {
            buffer_takes_whole_frames(kept, audio.info);
            fill_front_plays_buffers(next, file, end, first, second);
        },
        HeaderStage::Finished(Err(_)) => {},
        _ => {
            header_leads_to_audio(next, file, end, first, second);
        },
    }
}

/// The bytes of a file's data chunk are played, and no others, in the format of its
/// header, whatever the buffers held before; a file whose header is refused is not
/// heard.
pub proof fn file_is_played(
    name: Seq<char>,
    file: Seq<u8>,
    first: Seq<u32>,
    second: Seq<u32>,
)
    requires
        parsed(file).0 matches Ok(audio) ==> frame_of(audio.info) > 0,
    ensures
        play(PlayModel::initial(name), file, 0, Seq::empty(), first, second) == (match parsed(
            file,
        ) {
            (Ok(audio), start) => played(
                data_bytes(file, start, audio.size as int),
                audio.info,
            ),
            (Err(e), _) => (Err(e), Seq::empty()),
        }),
{
    let kept = Seq::<u8>::empty();
    let start = PlayModel::initial(name);
    let root = start.after(PlayEventModel::Opened);
    let open = root.after(PlayEventModel::Opened);
    let m = open.after(PlayEventModel::Opened);
    assert(play(start, file, 0, kept, first, second) == play(root, file, 0, kept, first, second));
    assert(play(root, file, 0, kept, first, second) == play(open, file, 0, kept, first, second));
    assert(play(open, file, 0, kept, first, second) == play(m, file, 0, kept, first, second));
    header_leads_to_audio(m, file, 0, first, second);
}

/// A volume, a root directory or a file that cannot be opened ends the playback
/// before anything is heard.
pub proof fn unopened_is_reported(m: PlayModel)
    ensures
        m.stage is OpenVolume || m.stage is OpenRootDir ==> m.after(
            PlayEventModel::NotOpened,
        ).stage == PlayStage::Finished(Err(AudioError::ReadError)),
        m.stage is OpenFile ==> m.after(PlayEventModel::NotOpened).stage == PlayStage::Finished(
            Err(AudioError::FileNotFound),
        ),
{
}

/// A read of the audio that fails gives no frame and ends the playback: before
/// anything was heard the file is invalid, and after that it has been played.
pub proof fn failed_read_ends_playback(m: PlayModel, e: AudioError)
    requires
        m.valid(),
        match m.stage {
            PlayStage::FillFront(rest) | PlayStage::Play(rest) => frame_of(rest.info) > 0,
            _ => false,
        },
    ensures
        m.after(PlayEventModel::AudioRead(Err(e))).stage == PlayStage::Finished(
            if m.stage is FillFront {
                Err(AudioError::InvalidWav)
            } else {
                Ok(())
            },
        ),
{
    match m.stage {
        PlayStage::FillFront(rest) | PlayStage::Play(rest) => {
            whole_frames(rest.kept as int, frame_of(rest.info));
        },
        _ => {},
    }
}

/// A frame is the same wherever the bytes around it are cut off.
proof fn word_of_part(
    audio: Seq<u8>,
    start: int,
    end: int,
    at: int,
    num_channels: int,
    bytes_per_sample: int,
)
    requires
        0 <= start <= end <= audio.len(),
        0 <= at,
        at + frame_len(num_channels, bytes_per_sample) <= end - start,
        frame_len(num_channels, bytes_per_sample) > 0,
        num_channels >= 0,
        bytes_per_sample >= 0,
    ensures
        word(audio.subrange(start, end), at, num_channels, bytes_per_sample) == word(
            audio,
            start + at,
            num_channels,
            bytes_per_sample,
        ),
{
    let frame = num_channels * bytes_per_sample;
    assert(num_channels > 0 && bytes_per_sample > 0 && (num_channels == 1 ==> frame
        == bytes_per_sample) && (num_channels >= 2 ==> 2 * bytes_per_sample <= frame))
        by (nonlinear_arith)
        requires
            frame == num_channels * bytes_per_sample,
            frame > 0,
            num_channels >= 0,
            bytes_per_sample >= 0,
    ;
}

/// The words of a buffer are the next words of the audio, with silence behind them.
proof fn buffer_holds_next_words(audio: Seq<u8>, info: WavInfo)
    requires
        frame_of(info) > 0,
    ensures
        next_frames(audio, info) <= all_words(audio, info).len(),
        forall|i: int|
            0 <= i < BUFFER_SIZE ==> #[trigger] buffer_of(next_read(audio, info), info)[i] == (if i
                < next_frames(audio, info) {
                all_words(audio, info)[i]
            } else {
                SILENT_WORD
            }),
{
    let frame = frame_of(info);
    let read = next_read(audio, info);
    let frames = next_frames(audio, info);
    buffer_takes_whole_frames(audio, info);
    whole_frames(audio.len() as int, frame);
    assert forall|i: int| 0 <= i < frames implies #[trigger] buffer_of(read, info)[i] == all_words(
        audio,
        info,
    )[i] by {
        assert(0 <= i * frame && i * frame + frame <= frames * frame) by (nonlinear_arith)
            requires
                frame > 0,
                0 <= i < frames,
        ;
        word_of_part(
            audio,
            0,
            read.len() as int,
            i * frame,
            info.num_channels as int,
            info.bits_per_sample as int / 8,
        );
    }
}

/// The words behind the first `q` are the words of what lies behind the first `q`
/// frames.
proof fn words_further_on(audio: Seq<u8>, info: WavInfo, q: int)
    requires
        frame_of(info) > 0,
        0 <= q,
        0 <= q * frame_of(info) <= audio.len(),
    ensures
        all_words(audio, info).len() == q + all_words(audio.skip(q * frame_of(info)), info).len(),
        forall|j: int|
            0 <= j < all_words(audio.skip(q * frame_of(info)), info).len() ==> #[trigger] all_words(
                audio.skip(q * frame_of(info)),
                info,
            )[j] == all_words(audio, info)[q + j],
{
    let frame = frame_of(info);
    let whole = audio.len() as int;
    let start = q * frame;
    let rest = audio.skip(start);
    let left = rest.len() as int;
    assert(whole / frame == q + left / frame && left / frame >= 0) by (nonlinear_arith)
        requires
            frame > 0,
            left == whole - q * frame,
            left >= 0,
    ;
    assert forall|j: int| 0 <= j < all_words(rest, info).len() implies #[trigger] all_words(
        rest,
        info,
    )[j] == all_words(audio, info)[q + j] by {
        assert(start + j * frame == (q + j) * frame && 0 <= j * frame && j * frame + frame <= left)
            by (nonlinear_arith)
            requires
                frame > 0,
                start == q * frame,
                0 <= j < left / frame,
        ;
        word_of_part(
            audio,
            start,
            whole,
            j * frame,
            info.num_channels as int,
            info.bits_per_sample as int / 8,
        );
    }
}

/// No frame is lost, repeated or moved, as long as the raw buffer holds a whole one.
pub proof fn no_frame_is_lost(audio: Seq<u8>, info: WavInfo)
    requires
        0 < frame_of(info) <= RAW_BUFFER_SIZE,
    ensures
        heard(audio, info) == all_words(audio, info),
    decreases audio.len(),
{
    let frames = next_frames(audio, info);
    let rest = audio.skip(frames * frame_of(info));
    buffer_takes_whole_frames(audio, info);
    buffer_holds_next_words(audio, info);
    if frames > 0 {
        words_further_on(audio, info, frames);
        no_frame_is_lost(rest, info);
    }
    assert(heard(audio, info) =~= all_words(audio, info));
}

/// The buffers hold the frames in turn: every buffer but the last holds as many as go
/// into one, and behind the frames of a buffer there is silence.
pub proof fn buffers_hold_frames_in_turn(audio: Seq<u8>, info: WavInfo, k: int, i: int)
    requires
        0 < frame_of(info) <= RAW_BUFFER_SIZE,
        0 <= k < buffers(audio, info).len(),
        0 <= i < BUFFER_SIZE,
    ensures
        buffers(audio, info)[k].len() == BUFFER_SIZE,
        buffers(audio, info)[k][i] == (if i < frames_per_buffer(info) && k * frames_per_buffer(info)
            + i < all_words(audio, info).len() {
            all_words(audio, info)[k * frames_per_buffer(info) + i]
        } else {
            SILENT_WORD
        }),
    decreases k,
{
    let cap = frames_per_buffer(info);
    let frames = next_frames(audio, info);
    let rest = audio.skip(frames * frame_of(info));
    buffer_takes_whole_frames(audio, info);
    buffer_holds_next_words(audio, info);
    if k > 0 {
        assert(buffers(audio, info)[k] == buffers(rest, info)[k - 1]);
        words_further_on(audio, info, frames);
        buffer_takes_whole_frames(rest, info);
        assert(frames == cap);
        buffers_hold_frames_in_turn(rest, info, k - 1, i);
        assert((k - 1) * cap + cap == k * cap) by (nonlinear_arith);
        assert(0 <= (k - 1) * cap) by (nonlinear_arith)
            requires
                k >= 1,
                cap >= 1,
        ;
        let at = (k - 1) * cap + i;
        if at < all_words(rest, info).len() {
            assert(all_words(rest, info)[at] == all_words(audio, info)[cap + at]);
        }
    } else {
        assert(k * cap == 0) by (nonlinear_arith)
            requires
                k == 0,
        ;
    }
}

/// As many buffers are played as it takes to hold every frame.
pub proof fn every_frame_has_a_buffer(audio: Seq<u8>, info: WavInfo)
    requires
        0 < frame_of(info) <= RAW_BUFFER_SIZE,
    ensures
        (buffers(audio, info).len() - 1) * frames_per_buffer(info) < all_words(audio, info).len()
            <= buffers(audio, info).len() * frames_per_buffer(info),
    decreases audio.len(),
{
    let cap = frames_per_buffer(info);
    let frames = next_frames(audio, info);
    let rest = audio.skip(frames * frame_of(info));
    let n = buffers(audio, info).len() as int;
    buffer_takes_whole_frames(audio, info);
    buffer_holds_next_words(audio, info);
    if frames > 0 {
        words_further_on(audio, info, frames);
        buffer_takes_whole_frames(rest, info);
        every_frame_has_a_buffer(rest, info);
        assert(n == 1 + buffers(rest, info).len());
    }
    assert((n - 1) * cap + cap == n * cap && (n - 2) * cap + cap == (n - 1) * cap && (n == 0
        ==> n * cap == 0) && (n == 1 ==> n * cap == cap)) by (nonlinear_arith);
}

/// Where the raw buffer holds all that an output buffer takes, the buffers are
/// played without a gap: one after the other they hold every frame, and silence
/// after the last.
pub proof fn playing_has_no_gaps(audio: Seq<u8>, info: WavInfo, k: int, i: int)
    requires
        0 < BUFFER_SIZE * frame_of(info) <= RAW_BUFFER_SIZE,
        0 <= k < buffers(audio, info).len(),
        0 <= i < BUFFER_SIZE,
    ensures
        buffers(audio, info)[k][i] == (if k * BUFFER_SIZE + i < all_words(audio, info).len() {
            all_words(audio, info)[k * BUFFER_SIZE + i]
        } else {
            SILENT_WORD
        }),
{
    buffer_takes_whole_frames(audio, info);
    buffers_hold_frames_in_turn(audio, info, k, i);
}

/// What a file sounds like when the actions of its playback are carried out: every whole
/// frame of its data chunk is played once and in order, and nothing else is but silence.
///
/// `start` is where the audio starts, `frame` the length of a frame, `total` the number of
/// whole frames in the data chunk, as far as the file goes, and `per` the number of
/// frames in a full buffer: 960, or as many as the 4096 bytes of the raw buffer hold. The
/// `i`th word of the `k`th buffer holds the samples of frame `k * per + i`: the first in
/// its low half, and the second in its high half, or the first again where there is one
/// channel.
pub proof fn every_frame_of_a_file_is_heard(
    name: Seq<char>,
    file: Seq<u8>,
    first: Seq<u32>,
    second: Seq<u32>,
    info: WavInfo,
    size: int,
    start: int,
    frame: int,
    total: int,
    per: int,
    k: int,
    i: int,
)
    requires
        parsed(file).0 is Ok,
        info == parsed(file).0->Ok_0.info,
        size == parsed(file).0->Ok_0.size,
        start == parsed(file).1,
        frame == info.num_channels * (info.bits_per_sample as int / 8),
        0 < frame <= 4096,
        total == (if start + size < file.len() {
            size
        } else {
            file.len() - start
        }) / frame,
        per == (if 960 * frame < 4096 {
            960 * frame
        } else {
            4096
        }) / frame,
    ensures
        ({
            let (result, heard) = play(
                PlayModel::initial(name),
                file,
                0,
                Seq::empty(),
                first,
                second,
            );
            &&& total == 0 ==> result == Err::<(), AudioError>(AudioError::InvalidWav)
            &&& total > 0 ==> result == Ok::<(), AudioError>(())
            &&& 1 <= per <= 960
            &&& (heard.len() - 1) * per < total <= heard.len() * per
            &&& 0 <= k < heard.len() ==> heard[k].len() == 960
            &&& 0 <= k < heard.len() && 0 <= i < per && k * per + i < total ==> heard[k][i] as int
                % 0x1_0000 == sample(
                file,
                start + (k * per + i) * frame,
                info.bits_per_sample as int / 8,
            )
            &&& 0 <= k < heard.len() && 0 <= i < per && k * per + i < total ==> heard[k][i] as int
                / 0x1_0000 == sample(
                file,
                if info.num_channels == 1 {
                    start + (k * per + i) * frame
                } else {
                    start + (k * per + i) * frame + info.bits_per_sample as int / 8
                },
                info.bits_per_sample as int / 8,
            )
            &&& 0 <= k < heard.len() && 0 <= i < 960 && !(i < per && k * per + i < total)
                ==> heard[k][i] == 0x8000_8000
        }),
{
    let bps = info.bits_per_sample as int / 8;
    let channels = info.num_channels as int;
    let audio = data_bytes(file, start, size);
    parsed_lies_in_file(file);
    file_is_played(name, file, first, second);
    let all = buffers(audio, info);
    buffer_takes_whole_frames(audio, info);
    every_frame_has_a_buffer(audio, info);
    assert(per == frames_per_buffer(info));
    assert(audio.len() == (if start + size < file.len() {
        size
    } else {
        file.len() - start
    }));
    assert(total == all_words(audio, info).len()) by {
        whole_frames(audio.len() as int, frame);
    }
    assert(total > 0 <==> all.len() > 0) by {
        if all.len() == 0 {
            assert(all.len() * per == 0) by (nonlinear_arith)
                requires
                    all.len() == 0,
            ;
        } else {
            assert((all.len() - 1) * per >= 0) by (nonlinear_arith)
                requires
                    all.len() >= 1,
                    per >= 1,
            ;
        }
    }
    if 0 <= k < all.len() {
        buffers_hold_frames_in_turn(audio, info, k, 0);
        if 0 <= i < 960 {
            buffers_hold_frames_in_turn(audio, info, k, i);
            if i < per && k * per + i < total {
                let j = k * per + i;
                assert(0 <= k * per) by (nonlinear_arith)
                    requires
                        k >= 0,
                        per >= 1,
                ;
                whole_frames(audio.len() as int, frame);
                assert(0 <= j * frame && j * frame + frame <= audio.len()) by (nonlinear_arith)
                    requires
                        0 <= j < total,
                        frame > 0,
                        total * frame <= audio.len(),
                ;
                word_of_part(file, start, start + audio.len(), j * frame, channels, bps);
                words_hold_their_samples(audio, j * frame, channels, bps);
                words_hold_their_samples(file, start + j * frame, channels, bps);
            }
        }
    }
}

/// The position at which a parser leaves a file lies in the file.
proof fn parsed_lies_in_file(file: Seq<u8>)
    ensures
        0 <= parsed(file).1 <= file.len(),
{
    run_stays_in_file(HeaderModel::initial(), file, 0);
}

proof fn run_stays_in_file(m: HeaderModel, file: Seq<u8>, pos: int)
    requires
        0 <= pos <= file.len(),
    ensures
        pos <= run(m, file, pos).1 <= file.len(),
    decreases file.len() - pos, distance(m.stage), left_to_skip(m.stage),
{
    match m.stage {
        HeaderStage::Finished(_) => {},
        _ => {
            let got = read_at(file, pos, m.wanted());
            run_stays_in_file(m.after(Ok(got)), file, pos + got.len());
        },
    }
}

/// What filling does with the bytes in the raw buffer: the `i`th word of the buffer plays
/// the `i`th frame of them, where there is a whole one, and is silent otherwise, and what
/// is kept are the bytes behind the last whole frame.
pub proof fn raw_bytes_become_words(raw: Seq<u8>, info: WavInfo, frames: int, i: int)
    requires
        info.num_channels * (info.bits_per_sample as int / 8) > 0,
        0 <= frames,
        0 <= i < 960,
        frames * (info.num_channels * (info.bits_per_sample as int / 8)) <= raw.len() < (frames + 1)
            * (info.num_channels * (info.bits_per_sample as int / 8)),
    ensures
        ({
            let bytes = info.bits_per_sample as int / 8;
            let frame = info.num_channels * bytes;
            let words = buffer_of(raw, info);
            &&& words.len() == 960
            &&& i < frames ==> words[i] as int % 0x1_0000 == sample(raw, i * frame, bytes)
            &&& i < frames ==> words[i] as int / 0x1_0000 == sample(
                raw,
                if info.num_channels == 1 {
                    i * frame
                } else {
                    i * frame + bytes
                },
                bytes,
            )
            &&& i >= frames ==> words[i] == 0x8000_8000
            &&& kept_of(raw, info) == raw.subrange(frames * frame, raw.len() as int)
        }),
{
    let bytes = info.bits_per_sample as int / 8;
    let channels = info.num_channels as int;
    let frame = channels * bytes;
    assert(channels > 0 && bytes > 0 && (i < frames <==> (i + 1) * frame <= raw.len()))
        by (nonlinear_arith)
        requires
            frame == channels * bytes,
            frame > 0,
            channels >= 0,
            bytes >= 0,
            frames * frame <= raw.len() < (frames + 1) * frame,
    ;
    each_word_plays_its_frame(raw, 960, channels, bytes, i);
    torn_frame_is_the_rest(raw, channels, bytes, frames);
}

} // verus!
