//! The header of a WAV file, parsed from a reader that hands out bytes.
//!
//! A [`HeaderParser`] says how many bytes it wants next; whoever holds the file
//! reads them and feeds them back, until the parser is done.

use crate::audio::{AudioError, WavAudio, WavInfo};
use crate::bytes::{
    has_tag, le16, le32, least, overlay, read_le16, read_le32, tags_are_found_byte_by_byte,
};
use vstd::prelude::*;

verus! {

/// The size of the parser's block buffer.
pub const HEADER_BLOCK: usize = 44;

/// At most this much of a `fmt ` chunk is read into the block buffer; the rest of it is skipped.
pub const FORMAT_READ_MAX: u32 = 40;

/// At most this many bytes are skipped by one read.
pub const SKIP_READ_MAX: u32 = 64;

/// The part of a `fmt ` chunk that holds the PCM format.
pub const FORMAT_LEN: u32 = 16;

/// The format tag of uncompressed PCM.
pub const PCM_TAG: u16 = 1;

pub open spec fn riff_tag() -> Seq<u8> {
    seq![0x52u8, 0x49u8, 0x46u8, 0x46u8]
}

pub open spec fn wave_tag() -> Seq<u8> {
    seq![0x57u8, 0x41u8, 0x56u8, 0x45u8]
}

pub open spec fn fmt_tag() -> Seq<u8> {
    seq![0x66u8, 0x6du8, 0x74u8, 0x20u8]
}

pub open spec fn data_tag() -> Seq<u8> {
    seq![0x64u8, 0x61u8, 0x74u8, 0x61u8]
}

/// What a parser is waiting for.
#[derive(Debug, Clone, Copy, PartialEq, Eq)]
pub enum HeaderStage {
    /// The twelve bytes that open the file.
    Riff,
    /// The tag and the size of the next chunk.
    ChunkHead,
    /// The body of a `fmt ` chunk of this size.
    Format { size: u32 },
    /// This many bytes are still to be skipped.
    Skip { remaining: u32 },
    /// Nothing more: this is the outcome.
    Finished(Result<WavAudio, AudioError>),
}

/// The state of a parser.
pub struct HeaderModel {
    pub stage: HeaderStage,
    /// The block buffer. A short read leaves its tail as it was.
    pub block: Seq<u8>,
    /// The format of the last `fmt ` chunk seen so far.
    pub format: Option<WavInfo>,
}

/// The next stage when `n` bytes are to be skipped.
pub open spec fn skip(n: int) -> HeaderStage {
    if n > 0 {
        HeaderStage::Skip { remaining: n as u32 }
    } else {
        HeaderStage::ChunkHead
    }
}

/// How much of a `fmt ` chunk of size `size` is read.
pub open spec fn format_read(size: int) -> int {
    least(size, FORMAT_READ_MAX as int)
}

/// Whether a `fmt ` chunk whose body stands at the front of `block` says that the
/// audio is uncompressed PCM.
pub open spec fn is_pcm(block: Seq<u8>) -> bool {
    le16(block, 0) == PCM_TAG
}

/// The format that a `fmt ` chunk gives whose body stands at the front of `block`.
pub open spec fn format_of(block: Seq<u8>) -> WavInfo {
    WavInfo {
        sample_rate: le32(block, 4) as u32,
        bits_per_sample: le16(block, 14) as u16,
        num_channels: le16(block, 2) as u16,
    }
}

/// The outcome when a `data` chunk of size `size` is reached.
pub open spec fn outcome(format: Option<WavInfo>, size: u32) -> Result<WavAudio, AudioError> {
    match format {
        Some(info) => Ok(WavAudio { info, size }),
        None => Err(AudioError::InvalidWav),
    }
}

impl HeaderModel {
    pub open spec fn initial() -> HeaderModel {
        HeaderModel {
            stage: HeaderStage::Riff,
            block: Seq::new(HEADER_BLOCK as nat, |i: int| 0u8),
            format: None,
        }
    }

    /// How many bytes are to be read next.
    pub open spec fn wanted(self) -> int {
        match self.stage {
            HeaderStage::Riff => 12,
            HeaderStage::ChunkHead => 8,
            HeaderStage::Format { size } => format_read(size as int),
            HeaderStage::Skip { remaining } => least(remaining as int, SKIP_READ_MAX as int),
            HeaderStage::Finished(_) => 0,
        }
    }

    pub open spec fn at(self, stage: HeaderStage) -> HeaderModel {
        HeaderModel { stage, ..self }
    }

    pub open spec fn finish(self, result: Result<WavAudio, AudioError>) -> HeaderModel {
        self.at(HeaderStage::Finished(result))
    }

    /// The state after a read that gave `got`.
    ///
    /// What a chunk is too short to hold is taken from what the block buffer held
    /// before.
    pub open spec fn fed(self, got: Seq<u8>) -> HeaderModel {
        let block = overlay(self.block, got);
        let stored = HeaderModel { block, ..self };
        match self.stage {
            HeaderStage::Riff => if has_tag(block, 0, riff_tag()) && has_tag(block, 8, wave_tag()) {
                stored.at(HeaderStage::ChunkHead)
            } else {
                stored.finish(Err(AudioError::InvalidWav))
            },
            HeaderStage::ChunkHead => {
                let size = le32(block, 4) as u32;
                if got.len() < 8 {
                    stored.finish(Err(AudioError::InvalidWav))
                } else if has_tag(block, 0, fmt_tag()) {
                    stored.at(HeaderStage::Format { size })
                } else if has_tag(block, 0, data_tag()) {
                    stored.finish(outcome(self.format, size))
                } else {
                    stored.at(skip(size as int))
                }
            },
            HeaderStage::Format { size } => if !is_pcm(block) {
                stored.finish(Err(AudioError::UnsupportedFormat))
            } else {
                HeaderModel {
                    stage: skip(size - format_read(size as int)),
                    block,
                    format: Some(format_of(block)),
                }
            },
            HeaderStage::Skip { remaining } => self.at(skip(remaining - self.wanted())),
            HeaderStage::Finished(_) => self,
        }
    }

    /// The state after a read that gave `got`, or failed.
    pub open spec fn after(self, got: Result<Seq<u8>, AudioError>) -> HeaderModel {
        match got {
            Ok(bytes) => self.fed(bytes),
            Err(e) => self.finish(Err(e)),
        }
    }
}

/// What the holder of the file is to do next.
#[derive(Debug, Clone, Copy, PartialEq, Eq)]
pub enum HeaderAction {
    /// Read at most this many bytes and feed them to the parser.
    Read { len: usize },
    /// The header is parsed, or refused.
    Done(Result<WavAudio, AudioError>),
}

/// An incremental parser of WAV headers.
pub struct HeaderParser {
    stage: HeaderStage,
    block: [u8; HEADER_BLOCK],
    format: Option<WavInfo>,
}

impl View for HeaderParser {
    type V = HeaderModel;

    closed spec fn view(&self) -> HeaderModel {
        HeaderModel { stage: self.stage, block: self.block@, format: self.format }
    }
}

impl HeaderParser {
    /// A parser at the start of a file.
    pub fn new() -> (parser: HeaderParser)
        ensures
            parser@ == HeaderModel::initial(),
    {
        let parser = HeaderParser {
            stage: HeaderStage::Riff,
            block: [0u8; HEADER_BLOCK],
            format: None,
        };
        assert(parser@.block =~= HeaderModel::initial().block);
        parser
    }

    /// What is to be done next.
    pub fn action(&self) -> (action: HeaderAction)
        ensures
            action == (match self@.stage {
                HeaderStage::Finished(result) => HeaderAction::Done(result),
                _ => HeaderAction::Read { len: self@.wanted() as usize },
            }),
            self@.stage !is Finished ==> action->len == self@.wanted(),
            self@.stage is Riff ==> action == (HeaderAction::Read { len: 12 }),
            self@.stage is ChunkHead ==> action == (HeaderAction::Read { len: 8 }),
            self@.stage matches HeaderStage::Format { size } ==> action is Read && action->len == (
            if size < 40 {
                size as int
            } else {
                40
            }),
            self@.stage matches HeaderStage::Skip { remaining } ==> action is Read && action->len
                == (if remaining < 64 {
                remaining as int
            } else {
                64
            }),
    {
        match self.stage {
            HeaderStage::Riff => HeaderAction::Read { len: 12 },
            HeaderStage::ChunkHead => HeaderAction::Read { len: 8 },
            HeaderStage::Format { size } => HeaderAction::Read {
                len: if size < FORMAT_READ_MAX { size as usize } else { FORMAT_READ_MAX as usize },
            },
            HeaderStage::Skip { remaining } => HeaderAction::Read {
                len: if remaining < SKIP_READ_MAX {
                    remaining as usize
                } else {
                    SKIP_READ_MAX as usize
                },
            },
            HeaderStage::Finished(result) => HeaderAction::Done(result),
        }
    }

    fn skip(n: u32) -> (stage: HeaderStage)
        ensures
            stage == skip(n as int),
    {
        if n > 0 {
            HeaderStage::Skip { remaining: n }
        } else {
            HeaderStage::ChunkHead
        }
    }

    /// Puts `got` at the front of the block buffer.
    fn store(&mut self, got: &[u8])
        requires
            got@.len() <= HEADER_BLOCK,
        ensures
            final(self)@ == (HeaderModel { block: overlay(old(self)@.block, got@), ..old(self)@ }),
    {
        let mut i: usize = 0;
        while i < got.len()
            invariant
                i <= got@.len() <= HEADER_BLOCK,
                self.stage == old(self).stage,
                self.format == old(self).format,
                self.block@ =~= overlay(old(self).block@, got@.take(i as int)),
            decreases got@.len() - i,
        {
            self.block[i] = got[i];
            i = i + 1;
        }
        assert(got@.take(got@.len() as int) =~= got@);
    }

    fn tag_at(&self, at: usize, tag: [u8; 4]) -> (found: bool)
        requires
            at <= 40,
        ensures
            found == has_tag(self@.block, at as int, tag@),
    {
        let found = self.block[at] == tag[0] && self.block[at + 1] == tag[1]
            && self.block[at + 2] == tag[2] && self.block[at + 3] == tag[3];
        assert(found ==> self.block@.subrange(at as int, at + 4) =~= tag@);
        assert(!found ==> self.block@.subrange(at as int, at + 4) != tag@) by {
            let part = self.block@.subrange(at as int, at + 4);
            assert(part[0] == self.block@[at as int]);
            assert(part[1] == self.block@[at + 1]);
            assert(part[2] == self.block@[at + 2]);
            assert(part[3] == self.block@[at + 3]);
        }
        found
    }

    /// Goes on after a read: `got` is what the read gave, at most as many bytes
    /// as were asked for, or the error with which it failed.
    pub fn feed(&mut self, got: Result<&[u8], AudioError>)
        requires
            got is Ok ==> got->Ok_0@.len() <= old(self)@.wanted(),
        ensures
            final(self)@ == old(self)@.after(
                match got {
                    Ok(bytes) => Ok(bytes@),
                    Err(e) => Err(e),
                },
            ),
    {
        let bytes = match got {
            Ok(bytes) => bytes,
            Err(e) => {
                self.stage = HeaderStage::Finished(Err(e));
                return;
            },
        };
        match self.stage {
            HeaderStage::Riff => {
                self.store(bytes);
                if self.tag_at(0, [0x52, 0x49, 0x46, 0x46]) && self.tag_at(
                    8,
                    [0x57, 0x41, 0x56, 0x45],
                ) {
                    self.stage = HeaderStage::ChunkHead;
                } else {
                    self.stage = HeaderStage::Finished(Err(AudioError::InvalidWav));
                }
            },
            HeaderStage::ChunkHead => {
                self.store(bytes);
                let size = read_le32(self.block[4], self.block[5], self.block[6], self.block[7]);
                if bytes.len() < 8 {
                    self.stage = HeaderStage::Finished(Err(AudioError::InvalidWav));
                } else if self.tag_at(0, [0x66, 0x6d, 0x74, 0x20]) {
                    self.stage = HeaderStage::Format { size };
                } else if self.tag_at(0, [0x64, 0x61, 0x74, 0x61]) {
                    self.stage = HeaderStage::Finished(
                        match self.format {
                            Some(info) => Ok(WavAudio { info, size }),
                            None => Err(AudioError::InvalidWav),
                        },
                    );
                } else {
                    self.stage = HeaderParser::skip(size);
                }
            },
            HeaderStage::Format { size } => {
                self.store(bytes);
                if read_le16(self.block[0], self.block[1]) != PCM_TAG {
                    self.stage = HeaderStage::Finished(Err(AudioError::UnsupportedFormat));
                } else {
                    self.format = Some(
                        WavInfo {
                            sample_rate: read_le32(
                                self.block[4],
                                self.block[5],
                                self.block[6],
                                self.block[7],
                            ),
                            bits_per_sample: read_le16(self.block[14], self.block[15]),
                            num_channels: read_le16(self.block[2], self.block[3]),
                        },
                    );
                    self.stage = HeaderParser::skip(
                        if size < FORMAT_READ_MAX { 0 } else { size - FORMAT_READ_MAX },
                    );
                }
            },
            HeaderStage::Skip { remaining } => {
                self.stage = HeaderParser::skip(
                    if remaining < SKIP_READ_MAX { 0 } else { remaining - SKIP_READ_MAX },
                );
            },
            HeaderStage::Finished(_) => {},
        }
    }
}

/// A read that fails ends the parsing with its error, whatever was parsed before.
pub proof fn failed_reads_are_reported(m: HeaderModel, e: AudioError)
    ensures
        m.after(Err(e)).stage == HeaderStage::Finished(Err(e)),
{
}

/// What a read does to the parser, whatever it gave, in full or short. `block` is what the
/// block buffer holds then: `got`, and behind it what it held before.
///
/// The opening is checked for its two tags. The head of a chunk needs all of its eight
/// bytes: it leads to the body of a `fmt ` chunk, to the outcome at a `data` chunk, and
/// past any other one. The body of a `fmt ` chunk gives the format, and what was not asked
/// for of it is skipped. Of what is skipped as much is counted off as was asked for.
pub proof fn reads_move_the_parser_on(m: HeaderModel, got: Seq<u8>, block: Seq<u8>)
    requires
        m.block.len() == 44,
        block.len() == 44,
        forall|i: int|
            0 <= i < 44 ==> #[trigger] block[i] == (if i < got.len() {
                got[i]
            } else {
                m.block[i]
            }),
    ensures
        ({
            let next = m.after(Ok(got));
            let is_riff = block[0] == 0x52 && block[1] == 0x49 && block[2] == 0x46 && block[3]
                == 0x46 && block[8] == 0x57 && block[9] == 0x41 && block[10] == 0x56 && block[11]
                == 0x45;
            let is_fmt = block[0] == 0x66 && block[1] == 0x6d && block[2] == 0x74 && block[3]
                == 0x20;
            let is_data = block[0] == 0x64 && block[1] == 0x61 && block[2] == 0x74 && block[3]
                == 0x61;
            let size = block[4] + 0x100 * block[5] + 0x1_0000 * block[6] + 0x100_0000 * block[7];
            let invalid = HeaderStage::Finished(Err(AudioError::InvalidWav));
            &&& m.stage is Skip || m.stage is Finished ==> next.block == m.block
            &&& !(m.stage is Skip || m.stage is Finished) ==> next.block == block
            &&& !(m.stage is Format) ==> next.format == m.format
            &&& m.stage is Riff && is_riff ==> next.stage is ChunkHead
            &&& m.stage is Riff && !is_riff ==> next.stage == invalid
            &&& m.stage is ChunkHead && got.len() < 8 ==> next.stage == invalid
            &&& m.stage is ChunkHead && got.len() >= 8 && is_fmt ==> next.stage is Format
                && next.stage->size == size
            &&& m.stage is ChunkHead && got.len() >= 8 && is_data && m.format is None ==> next.stage
                == invalid
            &&& m.stage is ChunkHead && got.len() >= 8 && is_data && m.format is Some ==> {
                &&& next.stage is Finished
                &&& next.stage->Finished_0 is Ok
                &&& next.stage->Finished_0->Ok_0.info == m.format->Some_0
                &&& next.stage->Finished_0->Ok_0.size == size
            }
            &&& m.stage is ChunkHead && got.len() >= 8 && !is_fmt && !is_data ==> (if size == 0 {
                next.stage is ChunkHead
            } else {
                next.stage is Skip && next.stage->remaining == size
            })
            &&& m.stage is Format && block[0] + 0x100 * block[1] != 1 ==> next.stage
                == HeaderStage::Finished(Err(AudioError::UnsupportedFormat))
            &&& m.stage is Format && block[0] + 0x100 * block[1] == 1 ==> {
                &&& next.format is Some
                &&& next.format->Some_0.num_channels == block[2] + 0x100 * block[3]
                &&& next.format->Some_0.sample_rate == size
                &&& next.format->Some_0.bits_per_sample == block[14] + 0x100 * block[15]
                &&& m.stage->size <= 40 ==> next.stage is ChunkHead
                &&& m.stage->size > 40 ==> next.stage is Skip && next.stage->remaining
                    == m.stage->size - 40
            }
            &&& m.stage is Skip && m.stage->remaining <= 64 ==> next.stage is ChunkHead
            &&& m.stage is Skip && m.stage->remaining > 64 ==> next.stage is Skip
                && next.stage->remaining == m.stage->remaining - 64
            &&& m.stage is Finished ==> next.stage == m.stage
        }),
{
    assert(overlay(m.block, got) =~= block);
    tags_are_found_byte_by_byte(block, 0, riff_tag());
    tags_are_found_byte_by_byte(block, 8, wave_tag());
    tags_are_found_byte_by_byte(block, 0, fmt_tag());
    tags_are_found_byte_by_byte(block, 0, data_tag());
}

} // verus!
