//! What a header parser makes of a whole file.
//!
//! The reader of a file hands out the bytes at its position, as many as were
//! asked for or as are left. Over such a reader the parser walks the chunks of
//! the file.

use crate::audio::{AudioError, WavAudio, WavInfo};
use crate::bytes::{has_tag, le16, le32, least, overlay, tags_are_found_byte_by_byte};
use crate::wav_header::{
    data_tag, fmt_tag, format_of, format_read, is_pcm, outcome, riff_tag, wave_tag, HeaderModel,
    HeaderStage, FORMAT_LEN, HEADER_BLOCK, PCM_TAG, SKIP_READ_MAX,
};
use vstd::prelude::*;

verus! {

/// What a read of at most `len` bytes at `pos` gives.
pub open spec fn read_at(file: Seq<u8>, pos: int, len: int) -> Seq<u8> {
    file.subrange(pos, least(pos + len, file.len() as int))
}

/// How far a stage is from the end, where no byte is read.
pub open spec fn distance(stage: HeaderStage) -> int {
    match stage {
        HeaderStage::Riff => 4,
        HeaderStage::Format { .. } => 3,
        HeaderStage::Skip { .. } => 2,
        HeaderStage::ChunkHead => 1,
        HeaderStage::Finished(_) => 0,
    }
}

pub open spec fn left_to_skip(stage: HeaderStage) -> int {
    match stage {
        HeaderStage::Skip { remaining } => remaining as int,
        _ => 0,
    }
}

/// The outcome of a parser in state `m` that reads `file` from `pos` on, and the
/// position at which it leaves the file.
pub open spec fn run(m: HeaderModel, file: Seq<u8>, pos: int) -> (
    Result<WavAudio, AudioError>,
    int,
)
    decreases file.len() - pos, distance(m.stage), left_to_skip(m.stage),
{
    if pos < 0 || pos > file.len() {
        (Err(AudioError::ReadError), pos)
    } else {
        match m.stage {
            HeaderStage::Finished(result) => (result, pos),
            _ => {
                let got = read_at(file, pos, m.wanted());
                run(m.after(Ok(got)), file, pos + got.len())
            },
        }
    }
}

/// The chunks of `file` from `pos` on, walked until the `data` chunk: the format
/// that the last `fmt ` chunk before it gave with the size of the `data` chunk, and
/// the position of the first byte of audio.
///
/// A chunk of size n takes n bytes behind its head. `block` and `format` are what
/// the walk has met so far: what a `fmt ` chunk is too short to hold is taken from
/// `block`.
pub open spec fn walk(file: Seq<u8>, pos: int, block: Seq<u8>, format: Option<WavInfo>) -> (
    Result<WavAudio, AudioError>,
    int,
)
    decreases file.len() - pos,
{
    let body = pos + 8;
    if pos < 0 || body > file.len() {
        (Err(AudioError::InvalidWav), file.len() as int)
    } else {
        let size = le32(file, pos + 4);
        let next = least(body + size, file.len() as int);
        let headed = overlay(block, file.subrange(pos, body));
        if has_tag(file, pos, fmt_tag()) {
            let content = read_at(file, body, format_read(size));
            let filled = overlay(headed, content);
            if !is_pcm(filled) {
                (Err(AudioError::UnsupportedFormat), body + content.len())
            } else {
                walk(file, next, filled, Some(format_of(filled)))
            }
        } else if has_tag(file, pos, data_tag()) {
            (outcome(format, size as u32), body)
        } else {
            walk(file, next, headed, format)
        }
    }
}

/// What a file gives from its first byte on.
pub open spec fn parsed(file: Seq<u8>) -> (Result<WavAudio, AudioError>, int) {
    run(HeaderModel::initial(), file, 0)
}

/// Whether a file opens as a WAV file does.
pub open spec fn opens_as_wav(file: Seq<u8>) -> bool {
    file.len() >= 12 && has_tag(file, 0, riff_tag()) && has_tag(file, 8, wave_tag())
}

/// Skipping takes the reader over the bytes to skip, or to the end of the file
/// where fewer are left.
pub proof fn skip_passes_over(m: HeaderModel, file: Seq<u8>, pos: int)
    requires
        0 <= pos <= file.len(),
        m.stage is Skip,
        m.stage->remaining > 0,
    ensures
        run(m, file, pos) == run(
            m.at(HeaderStage::ChunkHead),
            file,
            least(pos + m.stage->remaining, file.len() as int),
        ),
    decreases m.stage->remaining,
{
    let got = read_at(file, pos, m.wanted());
    let next = m.fed(got);
    if m.stage->remaining > SKIP_READ_MAX {
        skip_passes_over(next, file, pos + got.len());
    }
}

/// From a chunk head on, the parser gives what the walk over the chunks gives.
pub proof fn run_walks_chunks(m: HeaderModel, file: Seq<u8>, pos: int)
    requires
        0 <= pos <= file.len(),
        m.stage is ChunkHead,
        m.block.len() == HEADER_BLOCK,
    ensures
        run(m, file, pos) == walk(file, pos, m.block, m.format),
    decreases file.len() - pos,
{
    let got = read_at(file, pos, 8);
    let next = m.fed(got);
    assert(run(m, file, pos) == run(next, file, pos + got.len()));
    if got.len() == 8 {
        let body = pos + 8;
        let size = le32(file, pos + 4);
        let end = least(body + size, file.len() as int);
        assert(next.block.subrange(0, 4) =~= file.subrange(pos, pos + 4));
        assert(le32(next.block, 4) == size);
        if has_tag(file, pos, fmt_tag()) {
            let content = read_at(file, body, format_read(size));
            let filled = next.fed(content);
            assert(run(next, file, body) == run(filled, file, body + content.len()));
            if is_pcm(filled.block) {
                if size > format_read(size) {
                    skip_passes_over(filled, file, body + content.len());
                }
                run_walks_chunks(filled.at(HeaderStage::ChunkHead), file, end);
            }
        } else if has_tag(file, pos, data_tag()) {
        } else {
            if size > 0 {
                skip_passes_over(next, file, body);
            }
            run_walks_chunks(next.at(HeaderStage::ChunkHead), file, end);
        }
    }
}

/// A file parses as its chunks do, and one that does not open as a WAV file is
/// invalid.
pub proof fn file_parses_by_chunks(file: Seq<u8>)
    ensures
        opens_as_wav(file) ==> parsed(file) == walk(
            file,
            12,
            overlay(HeaderModel::initial().block, file.take(12)),
            None,
        ),
        !opens_as_wav(file) ==> parsed(file).0 == Err::<WavAudio, AudioError>(
            AudioError::InvalidWav,
        ),
{
    let got = read_at(file, 0, 12);
    let next = HeaderModel::initial().fed(got);
    assert(parsed(file) == run(next, file, got.len() as int));
    if file.len() >= 12 {
        assert(got =~= file.take(12));
        assert(next.block.subrange(0, 4) =~= file.subrange(0, 4));
        assert(next.block.subrange(8, 12) =~= file.subrange(8, 12));
    } else {
        assert(next.block.subrange(8, 12)[3] == 0u8);
        assert(wave_tag()[3] == 0x45u8);
    }
    if opens_as_wav(file) {
        run_walks_chunks(next, file, 12);
    }
}

/// Two bytes that spell `v`, least significant first.
pub open spec fn le16_bytes(v: u16) -> Seq<u8> {
    seq![(v % 256) as u8, (v / 256) as u8]
}

/// Four bytes that spell `v`, least significant first.
pub open spec fn le32_bytes(v: u32) -> Seq<u8> {
    seq![
        (v % 256) as u8,
        (v / 256 % 256) as u8,
        (v / 65536 % 256) as u8,
        (v / 16777216) as u8,
    ]
}

/// A chunk of a file: its tag and its content.
pub struct Chunk {
    pub tag: Seq<u8>,
    pub content: Seq<u8>,
}

impl Chunk {
    /// Whether this is a chunk that holds neither the format nor the audio.
    pub open spec fn is_other(self) -> bool {
        self.tag.len() == 4 && self.tag != fmt_tag() && self.tag != data_tag()
            && self.content.len() <= u32::MAX
    }

    /// Whether this is a `fmt ` chunk that holds the format of PCM audio.
    pub open spec fn is_format(self) -> bool {
        self.tag == fmt_tag() && is_pcm(self.content) && FORMAT_LEN <= self.content.len()
            <= u32::MAX
    }

    pub open spec fn bytes(self) -> Seq<u8> {
        self.tag + le32_bytes(self.content.len() as u32) + self.content
    }
}

/// Chunks one directly behind the other.
pub open spec fn chunk_bytes(chunks: Seq<Chunk>) -> Seq<u8>
    decreases chunks.len(),
{
    if chunks.len() == 0 {
        Seq::empty()
    } else {
        chunks[0].bytes() + chunk_bytes(chunks.drop_first())
    }
}

/// Whether chunks can stand before the audio.
pub open spec fn all_before_audio(chunks: Seq<Chunk>) -> bool {
    forall|i: int|
        0 <= i < chunks.len() ==> (#[trigger] chunks[i]).is_other() || chunks[i].is_format()
}

pub open spec fn all_other(chunks: Seq<Chunk>) -> bool {
    forall|i: int| 0 <= i < chunks.len() ==> (#[trigger] chunks[i]).is_other()
}

/// The format in the last `fmt ` chunk.
pub open spec fn last_format(chunks: Seq<Chunk>) -> Option<WavInfo>
    decreases chunks.len(),
{
    if chunks.len() == 0 {
        None
    } else if chunks.last().tag == fmt_tag() {
        Some(format_of(chunks.last().content))
    } else {
        last_format(chunks.drop_last())
    }
}

/// The `fmt ` chunk that describes PCM audio of format `info`, with any bytes behind
/// the description.
pub open spec fn format_chunk(
    info: WavInfo,
    byte_rate: u32,
    block_align: u16,
    extra: Seq<u8>,
) -> Chunk {
    Chunk {
        tag: fmt_tag(),
        content: le16_bytes(PCM_TAG) + le16_bytes(info.num_channels) + le32_bytes(info.sample_rate)
            + le32_bytes(byte_rate) + le16_bytes(block_align) + le16_bytes(info.bits_per_sample)
            + extra,
    }
}

/// The part of a WAV file before its audio.
pub open spec fn wav_head(riff_size: u32, chunks: Seq<Chunk>, data_size: u32) -> Seq<u8> {
    riff_tag() + le32_bytes(riff_size) + wave_tag() + chunk_bytes(chunks) + data_tag()
        + le32_bytes(data_size)
}

proof fn le32_round_trip(v: u32)
    ensures
        le32(le32_bytes(v), 0) == v,
{
}

/// A number that stands at `at` is read there.
proof fn le32_stands_at(file: Seq<u8>, at: int, v: u32)
    requires
        0 <= at,
        at + 4 <= file.len(),
        file.subrange(at, at + 4) == le32_bytes(v),
    ensures
        le32(file, at) == v,
{
    let part = file.subrange(at, at + 4);
    assert(part[0] == file[at] && part[1] == file[at + 1]);
    assert(part[2] == file[at + 2] && part[3] == file[at + 3]);
    le32_round_trip(v);
}

/// The first chunk counts only where no later one holds a format.
proof fn first_format(chunks: Seq<Chunk>)
    requires
        chunks.len() > 0,
    ensures
        last_format(chunks) == (match last_format(chunks.drop_first()) {
            Some(info) => Some(info),
            None => if chunks[0].tag == fmt_tag() {
                Some(format_of(chunks[0].content))
            } else {
                None
            },
        }),
    decreases chunks.len(),
{
    let rest = chunks.drop_first();
    if rest.len() == 0 {
        assert(last_format(chunks.drop_last()) is None);
    } else {
        assert(chunks.last() == rest.last());
        assert(chunks.drop_last().drop_first() =~= rest.drop_last());
        first_format(chunks.drop_last());
    }
}

/// The walk passes over the chunks before the audio and keeps the last format. What
/// the block buffer holds then is returned.
proof fn walk_passes_chunks(
    file: Seq<u8>,
    pos: int,
    chunks: Seq<Chunk>,
    block: Seq<u8>,
    format: Option<WavInfo>,
) -> (left: Seq<u8>)
    requires
        all_before_audio(chunks),
        block.len() == HEADER_BLOCK,
        0 <= pos,
        pos + chunk_bytes(chunks).len() <= file.len(),
        file.subrange(pos, pos + chunk_bytes(chunks).len()) == chunk_bytes(chunks),
    ensures
        walk(file, pos, block, format) == walk(
            file,
            pos + chunk_bytes(chunks).len(),
            left,
            match last_format(chunks) {
                Some(info) => Some(info),
                None => format,
            },
        ),
    decreases chunks.len(),
{
    if chunks.len() == 0 {
        block
    } else {
        let first = chunks[0];
        let rest = chunks.drop_first();
        let all = chunk_bytes(chunks);
        let head = first.bytes();
        let size = first.content.len() as u32;
        let body = pos + 8;
        let next = pos + head.len();
        assert(first.is_other() || first.is_format());
        assert(head.len() == 8 + first.content.len());
        assert(all.len() == head.len() + chunk_bytes(rest).len());
        assert(file.subrange(pos, next) =~= head) by {
            assert forall|i: int| 0 <= i < head.len() implies file[pos + i] == head[i] by {
                assert(file.subrange(pos, pos + all.len())[i] == all[i]);
            }
        }
        assert(file.subrange(next, next + chunk_bytes(rest).len()) =~= chunk_bytes(rest)) by {
            assert forall|i: int| 0 <= i < chunk_bytes(rest).len() implies file[next + i]
                == chunk_bytes(rest)[i] by {
                assert(file.subrange(pos, pos + all.len())[head.len() + i] == all[head.len() + i]);
            }
        }
        assert(file.subrange(pos, pos + 4) =~= head.subrange(0, 4)) by {
            assert forall|i: int| 0 <= i < 4 implies file[pos + i] == head[i] by {
                assert(file.subrange(pos, next)[i] == head[i]);
            }
        }
        assert(head.subrange(0, 4) =~= first.tag);
        assert(file.subrange(pos + 4, pos + 8) =~= le32_bytes(size)) by {
            assert forall|i: int| 0 <= i < 4 implies file[pos + 4 + i] == le32_bytes(size)[i] by {
                assert(file.subrange(pos, next)[4 + i] == head[4 + i]);
            }
        }
        le32_stands_at(file, pos + 4, size);
        assert(all_before_audio(rest)) by {
            assert forall|i: int| 0 <= i < rest.len() implies (#[trigger] rest[i]).is_other()
                || rest[i].is_format() by {
                assert(rest[i] == chunks[i + 1]);
            }
        }
        first_format(chunks);
        let headed = overlay(block, file.subrange(pos, body));
        if first.is_format() {
            let content = read_at(file, body, format_read(size as int));
            assert(content =~= first.content.take(format_read(size as int))) by {
                assert forall|i: int| 0 <= i < content.len() implies content[i]
                    == first.content[i] by {
                    assert(file.subrange(pos, next)[8 + i] == head[8 + i]);
                }
            }
            let filled = overlay(headed, content);
            assert(format_of(filled) == format_of(first.content));
            walk_passes_chunks(file, next, rest, filled, Some(format_of(first.content)))
        } else {
            walk_passes_chunks(file, next, rest, headed, format)
        }
    }
}

/// A WAV file whose chunks stand one directly behind the other is parsed to the
/// format in the last `fmt ` chunk before its audio, and the reader is left at the
/// first byte of the audio. Without a `fmt ` chunk the file is invalid.
pub proof fn last_format_counts(
    riff_size: u32,
    chunks: Seq<Chunk>,
    data_size: u32,
    audio: Seq<u8>,
)
    requires
        all_before_audio(chunks),
    ensures
        ({
            let head = wav_head(riff_size, chunks, data_size);
            parsed(head + audio) == (outcome(last_format(chunks), data_size), head.len() as int)
        }),
{
    let head = wav_head(riff_size, chunks, data_size);
    let file = head + audio;
    let at_data: int = 12 + chunk_bytes(chunks).len() as int;
    assert(head.len() == at_data + 8);
    assert(file.subrange(0, 4) =~= riff_tag());
    assert(file.subrange(8, 12) =~= wave_tag());
    file_parses_by_chunks(file);
    assert(file.subrange(12, at_data) =~= chunk_bytes(chunks));
    let start = overlay(HeaderModel::initial().block, file.take(12));
    let left = walk_passes_chunks(file, 12, chunks, start, None);
    assert(file.subrange(at_data, at_data + 4) =~= data_tag());
    assert(file.subrange(at_data + 4, at_data + 8) =~= le32_bytes(data_size));
    le32_stands_at(file, at_data + 4, data_size);
}

/// Chunks of other kinds hold no format.
proof fn others_hold_no_format(before: Seq<Chunk>, between: Seq<Chunk>)
    requires
        all_other(between),
    ensures
        last_format(before + between) == last_format(before),
    decreases between.len(),
{
    if between.len() == 0 {
        assert(before + between =~= before);
    } else {
        assert(between.last().is_other());
        assert((before + between).last() == between.last());
        assert((before + between).drop_last() =~= before + between.drop_last());
        others_hold_no_format(before, between.drop_last());
    }
}

/// What is written into a `fmt ` chunk is read out of it.
proof fn format_round_trip(info: WavInfo, byte_rate: u32, block_align: u16, extra: Seq<u8>)
    ensures
        format_of(format_chunk(info, byte_rate, block_align, extra).content) == info,
        is_pcm(format_chunk(info, byte_rate, block_align, extra).content),
        format_chunk(info, byte_rate, block_align, extra).content.len() == 16 + extra.len(),
{
    let content = format_chunk(info, byte_rate, block_align, extra).content;
    assert(content.subrange(4, 8) =~= le32_bytes(info.sample_rate));
    le32_stands_at(content, 4, info.sample_rate);
    assert(le16(content, 2) == info.num_channels);
    assert(le16(content, 14) == info.bits_per_sample);
}

/// A WAV file is parsed to the format that was written into it, however long its
/// `fmt ` chunk is, and the reader is left at the first byte of the audio, whatever
/// other chunks stand before the audio.
pub proof fn wav_parses_to_its_format(
    info: WavInfo,
    byte_rate: u32,
    block_align: u16,
    extra: Seq<u8>,
    riff_size: u32,
    before: Seq<Chunk>,
    between: Seq<Chunk>,
    data_size: u32,
    audio: Seq<u8>,
)
    requires
        16 + extra.len() <= u32::MAX,
        all_before_audio(before),
        all_other(between),
    ensures
        ({
            let fmt = format_chunk(info, byte_rate, block_align, extra);
            let head = wav_head(riff_size, before.push(fmt) + between, data_size);
            parsed(head + audio) == (
                Ok::<WavAudio, AudioError>(WavAudio { info, size: data_size }),
                head.len() as int,
            )
        }),
{
    let fmt = format_chunk(info, byte_rate, block_align, extra);
    let chunks = before.push(fmt) + between;
    format_round_trip(info, byte_rate, block_align, extra);
    assert forall|i: int| 0 <= i < chunks.len() implies (#[trigger] chunks[i]).is_other()
        || chunks[i].is_format() by {
        if i < before.len() {
            assert(chunks[i] == before[i]);
        } else if i > before.len() {
            assert(chunks[i] == between[i - before.len() - 1]);
        }
    }
    others_hold_no_format(before.push(fmt), between);
    last_format_counts(riff_size, chunks, data_size, audio);
}

/// A read gives the bytes that stand at the position, as many as were asked for or as are
/// left.
pub proof fn reads_give_the_next_bytes(file: Seq<u8>, pos: int, len: int, i: int)
    requires
        0 <= pos <= file.len(),
        0 <= len,
    ensures
        pos + len <= file.len() ==> read_at(file, pos, len).len() == len,
        pos + len > file.len() ==> read_at(file, pos, len).len() == file.len() - pos,
        0 <= i < read_at(file, pos, len).len() ==> read_at(file, pos, len)[i] == file[pos + i],
{
}

/// A file whose first twelve bytes are `RIFF`, a size and `WAVE` is parsed from its first
/// chunk on, with no format met yet; any other file is invalid. `m` is the state of the
/// parser at the first chunk: its block buffer holds the twelve bytes and zeros.
pub proof fn files_open_with_riff_and_wave(file: Seq<u8>, m: HeaderModel)
    requires
        m.stage is ChunkHead,
        m.format is None,
        m.block.len() == 44,
        forall|i: int|
            0 <= i < 44 ==> #[trigger] m.block[i] == (if i < 12 {
                file[i]
            } else {
                0u8
            }),
    ensures
        ({
            let opens = file.len() >= 12 && file[0] == 0x52 && file[1] == 0x49 && file[2] == 0x46
                && file[3] == 0x46 && file[8] == 0x57 && file[9] == 0x41 && file[10] == 0x56
                && file[11] == 0x45;
            &&& opens ==> parsed(file) == run(m, file, 12)
            &&& !opens ==> parsed(file).0 == Err::<WavAudio, AudioError>(AudioError::InvalidWav)
        }),
{
    file_parses_by_chunks(file);
    if file.len() >= 12 {
        tags_are_found_byte_by_byte(file, 0, riff_tag());
        tags_are_found_byte_by_byte(file, 8, wave_tag());
        let start = overlay(HeaderModel::initial().block, file.take(12));
        assert(m.block =~= start);
        run_walks_chunks(m, file, 12);
    }
}

/// Where fewer than eight bytes are left for the head of a chunk, the file is invalid.
pub proof fn files_without_audio_are_invalid(m: HeaderModel, file: Seq<u8>, pos: int)
    requires
        0 <= pos <= file.len() < pos + 8,
        m.stage is ChunkHead,
        m.block.len() == 44,
    ensures
        run(m, file, pos).0 == Err::<WavAudio, AudioError>(AudioError::InvalidWav),
{
    run_walks_chunks(m, file, pos);
}

/// A `data` chunk ends the header: the format is the one met last, the size is the one
/// in the head of the chunk, and the reader is left behind that head. Without a format
/// the file is invalid.
pub proof fn data_chunks_end_the_header(m: HeaderModel, file: Seq<u8>, pos: int)
    requires
        0 <= pos,
        pos + 8 <= file.len(),
        m.stage is ChunkHead,
        m.block.len() == 44,
        file[pos] == 0x64 && file[pos + 1] == 0x61 && file[pos + 2] == 0x74 && file[pos + 3]
            == 0x61,
    ensures
        m.format is None ==> run(m, file, pos).0 == Err::<WavAudio, AudioError>(
            AudioError::InvalidWav,
        ),
        m.format is Some ==> run(m, file, pos).0 is Ok,
        m.format is Some ==> run(m, file, pos).0->Ok_0.info == m.format->Some_0,
        m.format is Some ==> run(m, file, pos).0->Ok_0.size == file[pos + 4] + 0x100 * file[pos + 5]
            + 0x1_0000 * file[pos + 6] + 0x100_0000 * file[pos + 7],
        run(m, file, pos).1 == pos + 8,
{
    run_walks_chunks(m, file, pos);
    tags_are_found_byte_by_byte(file, pos, fmt_tag());
    tags_are_found_byte_by_byte(file, pos, data_tag());
}

/// A chunk of another kind is passed over, and nothing of it counts. `next` is the state
/// of the parser behind it: only the head of the chunk is in its block buffer.
pub proof fn other_chunks_are_passed_over(
    m: HeaderModel,
    next: HeaderModel,
    file: Seq<u8>,
    pos: int,
)
    requires
        0 <= pos,
        pos + 8 <= file.len(),
        m.stage is ChunkHead,
        m.block.len() == 44,
        !(file[pos] == 0x64 && file[pos + 1] == 0x61 && file[pos + 2] == 0x74 && file[pos + 3]
            == 0x61),
        !(file[pos] == 0x66 && file[pos + 1] == 0x6d && file[pos + 2] == 0x74 && file[pos + 3]
            == 0x20),
        next.stage is ChunkHead,
        next.format == m.format,
        next.block.len() == 44,
        forall|i: int|
            0 <= i < 44 ==> #[trigger] next.block[i] == (if i < 8 {
                file[pos + i]
            } else {
                m.block[i]
            }),
    ensures
        ({
            let size = file[pos + 4] + 0x100 * file[pos + 5] + 0x1_0000 * file[pos + 6]
                + 0x100_0000 * file[pos + 7];
            run(m, file, pos) == run(
                next,
                file,
                if pos + 8 + size < file.len() {
                    pos + 8 + size
                } else {
                    file.len() as int
                },
            )
        }),
{
    run_walks_chunks(m, file, pos);
    tags_are_found_byte_by_byte(file, pos, fmt_tag());
    tags_are_found_byte_by_byte(file, pos, data_tag());
    let headed = overlay(m.block, file.subrange(pos, pos + 8));
    assert(next.block =~= headed);
    let end = least(pos + 8 + le32(file, pos + 4), file.len() as int);
    run_walks_chunks(next, file, end);
}

/// A `fmt ` chunk is read into the block buffer, at most forty bytes of it, and gives the
/// format that stands there, if the kind of audio there is PCM; then the parser goes on
/// behind the chunk, whatever its size. `next` is the state of the parser there.
pub proof fn format_chunks_give_the_format(
    m: HeaderModel,
    next: HeaderModel,
    file: Seq<u8>,
    pos: int,
)
    requires
        0 <= pos,
        pos + 8 <= file.len(),
        m.stage is ChunkHead,
        m.block.len() == 44,
        file[pos] == 0x66 && file[pos + 1] == 0x6d && file[pos + 2] == 0x74 && file[pos + 3]
            == 0x20,
        next.stage is ChunkHead,
        next.block.len() == 44,
        forall|i: int|
            0 <= i < 44 ==> #[trigger] next.block[i] == (if i < 40 && i < file[pos + 4] + 0x100
                * file[pos + 5] + 0x1_0000 * file[pos + 6] + 0x100_0000 * file[pos + 7] && pos + 8
                + i < file.len() {
                file[pos + 8 + i]
            } else if i < 8 {
                file[pos + i]
            } else {
                m.block[i]
            }),
        next.format is Some,
        next.format->Some_0.num_channels == next.block[2] + 0x100 * next.block[3],
        next.format->Some_0.sample_rate == next.block[4] + 0x100 * next.block[5] + 0x1_0000
            * next.block[6] + 0x100_0000 * next.block[7],
        next.format->Some_0.bits_per_sample == next.block[14] + 0x100 * next.block[15],
    ensures
        ({
            let size = file[pos + 4] + 0x100 * file[pos + 5] + 0x1_0000 * file[pos + 6]
                + 0x100_0000 * file[pos + 7];
            &&& next.block[0] + 0x100 * next.block[1] != 1 ==> run(m, file, pos).0 == Err::<
                WavAudio,
                AudioError,
            >(AudioError::UnsupportedFormat)
            &&& next.block[0] + 0x100 * next.block[1] == 1 ==> run(m, file, pos) == run(
                next,
                file,
                if pos + 8 + size < file.len() {
                    pos + 8 + size
                } else {
                    file.len() as int
                },
            )
        }),
{
    run_walks_chunks(m, file, pos);
    tags_are_found_byte_by_byte(file, pos, fmt_tag());
    let size = le32(file, pos + 4);
    let headed = overlay(m.block, file.subrange(pos, pos + 8));
    let content = read_at(file, pos + 8, format_read(size));
    let filled = overlay(headed, content);
    assert(next.block =~= filled);
    assert(next.format->Some_0 == format_of(filled));
    let end = least(pos + 8 + size, file.len() as int);
    run_walks_chunks(next, file, end);
}

/// The header of a file that opens with a `fmt ` chunk and goes on with its `data` chunk,
/// byte by byte: the numbers in the header are the numbers that are found.
pub proof fn plain_headers_are_read_byte_by_byte(file: Seq<u8>)
    requires
        file.len() >= 44,
        file[0] == 0x52 && file[1] == 0x49 && file[2] == 0x46 && file[3] == 0x46,
        file[8] == 0x57 && file[9] == 0x41 && file[10] == 0x56 && file[11] == 0x45,
        file[12] == 0x66 && file[13] == 0x6d && file[14] == 0x74 && file[15] == 0x20,
        file[16] == 16 && file[17] == 0 && file[18] == 0 && file[19] == 0,
        file[20] == 1 && file[21] == 0,
        file[36] == 0x64 && file[37] == 0x61 && file[38] == 0x74 && file[39] == 0x61,
    ensures
        parsed(file).0 is Ok,
        parsed(file).0->Ok_0.info.num_channels == file[22] + 0x100 * file[23],
        parsed(file).0->Ok_0.info.sample_rate == file[24] + 0x100 * file[25] + 0x1_0000 * file[26]
            + 0x100_0000 * file[27],
        parsed(file).0->Ok_0.info.bits_per_sample == file[34] + 0x100 * file[35],
        parsed(file).0->Ok_0.size == file[40] + 0x100 * file[41] + 0x1_0000 * file[42] + 0x100_0000
            * file[43],
        parsed(file).1 == 44,
{
    let opened = HeaderModel {
        stage: HeaderStage::ChunkHead,
        block: Seq::new(
            44,
            |i: int|
                if i < 12 {
                    file[i]
                } else {
                    0u8
                },
        ),
        format: None,
    };
    files_open_with_riff_and_wave(file, opened);
    let block = Seq::new(
        44,
        |i: int|
            if i < 16 {
                file[20 + i]
            } else {
                opened.block[i]
            },
    );
    let next = HeaderModel {
        stage: HeaderStage::ChunkHead,
        block,
        format: Some(format_of(block)),
    };
    format_chunks_give_the_format(opened, next, file, 12);
    data_chunks_end_the_header(next, file, 36);
}

} // verus!
