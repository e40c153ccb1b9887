//! The course of playing a WAV file from the SD card.
//!
//! Opening and reading the file and writing to the output are done by whoever
//! holds the hardware. A [`WavPlayback`] says what is to be done next and is told
//! how it went. Two output buffers take turns: while the front one is played the
//! back one is filled, and then they change places.
//!
//! Only the bytes of the data chunk are read as audio. Where a read ends inside a
//! frame, the bytes of the torn frame stay in the raw buffer for the next one.

use crate::audio::{AudioError, WavInfo};
use crate::bytes::least;
use crate::pcm::{
    fill_bytes, fill_request, frame_bytes, frame_of, BUFFER_SIZE, RAW_BUFFER_SIZE,
};
use crate::sd_card::{FileMode, VOLUME};
use crate::wav_header::{HeaderAction, HeaderModel, HeaderParser, HeaderStage};
use vstd::prelude::*;

verus! {

/// The audio that is still to be played.
#[derive(Debug, Clone, Copy, PartialEq, Eq, Structural)]
pub struct AudioRest {
    pub info: WavInfo,
    /// How many bytes of the data chunk are still to be read.
    pub left: u32,
    /// How many bytes of a torn frame the raw buffer holds at its front.
    pub kept: usize,
}

impl AudioRest {
    /// A torn frame is shorter than a frame, and leaves room in the raw buffer.
    pub open spec fn valid(self) -> bool {
        &&& self.kept == 0 || self.kept < frame_of(self.info)
        &&& self.kept <= fill_bytes(self.info)
    }

    /// How many bytes are to be read next.
    pub open spec fn wanted(self) -> int {
        least(self.left as int, fill_bytes(self.info) - self.kept)
    }

    /// The number of whole frames once `n` more bytes are read.
    pub open spec fn frames(self, n: int) -> int {
        (self.kept + n) / frame_of(self.info)
    }

    /// What is still to be played when the whole frames are, once `n` more bytes are
    /// read.
    pub open spec fn after(self, n: int) -> AudioRest {
        AudioRest {
            left: (self.left - n) as u32,
            kept: ((self.kept + n) % frame_of(self.info)) as usize,
            ..self
        }
    }

    /// How many bytes are to be read next.
    fn request(&self) -> (len: usize)
        requires
            self.valid(),
        ensures
            len == self.wanted(),
    {
        let room: usize = fill_request(
            BUFFER_SIZE,
            RAW_BUFFER_SIZE,
            self.info.num_channels,
            self.info.bytes_per_sample(),
        ) - self.kept;
        if (self.left as u64) < room as u64 {
            self.left as usize
        } else {
            room
        }
    }

    /// The whole frames once `n` more bytes are read, and what is left then.
    fn advance(&self, n: usize) -> (moved: (usize, AudioRest))
        requires
            self.valid(),
            frame_of(self.info) > 0,
            n <= self.wanted(),
        ensures
            moved.0 == self.frames(n as int),
            moved.1 == self.after(n as int),
            moved.1.valid(),
    {
        let frame: usize = frame_bytes(self.info);
        let have: usize = self.kept + n;
        assert(0 <= have % frame < frame && have % frame <= have) by (nonlinear_arith)
            requires
                frame > 0,
                have >= 0,
        ;
        (
            have / frame,
            AudioRest { info: self.info, left: self.left - n as u32, kept: have % frame },
        )
    }
}

/// How far the playing of a file has come.
#[derive(Debug, Clone, Copy, PartialEq, Eq)]
pub enum PlayStage {
    OpenVolume,
    OpenRootDir,
    OpenFile,
    /// The header is being parsed.
    Header,
    /// The front buffer is to be filled for the first time.
    FillFront(AudioRest),
    /// The front buffer is to be played while the back buffer is filled.
    Play(AudioRest),
    Finished(Result<(), AudioError>),
}

/// The reading for one output buffer: at most `len` bytes are read behind the first
/// `kept` bytes of the raw buffer, and the whole frames of them all are played.
#[derive(Debug, Clone, Copy, PartialEq, Eq, Structural)]
pub struct Fill {
    pub info: WavInfo,
    pub kept: usize,
    pub len: usize,
}

/// The reading for one output buffer, over unbounded numbers.
pub struct FillModel {
    pub info: WavInfo,
    pub kept: int,
    pub len: int,
}

impl View for Fill {
    type V = FillModel;

    open spec fn view(&self) -> FillModel {
        FillModel { info: self.info, kept: self.kept as int, len: self.len as int }
    }
}

/// What is to be done next. Where buffers are concerned, `swapped` says whether
/// the two have changed places.
#[derive(Debug, Clone, Copy, PartialEq, Eq)]
pub enum PlayAction<'a> {
    /// Open the volume of this number on the card.
    OpenVolume { volume: usize },
    OpenRootDir,
    /// Open the file of this name in the root directory.
    OpenFile { name: &'a str, mode: FileMode },
    /// Read at most this many bytes of the file.
    ReadHeader { len: usize },
    /// Read and fill the front buffer.
    FillFront { fill: Fill, swapped: bool },
    /// Start playing the front buffer, read and fill the back buffer, and wait
    /// for the front buffer to end.
    PlayFrontFillBack { fill: Fill, swapped: bool },
    Done(Result<(), AudioError>),
}

/// What is to be done next, over characters and unbounded numbers.
pub enum PlayActionModel {
    OpenVolume { volume: int },
    OpenRootDir,
    OpenFile { name: Seq<char>, mode: FileMode },
    ReadHeader { len: int },
    FillFront { fill: FillModel, swapped: bool },
    PlayFrontFillBack { fill: FillModel, swapped: bool },
    Done(Result<(), AudioError>),
}

impl<'a> View for PlayAction<'a> {
    type V = PlayActionModel;

    open spec fn view(&self) -> PlayActionModel {
        match *self {
            PlayAction::OpenVolume { volume } => PlayActionModel::OpenVolume {
                volume: volume as int,
            },
            PlayAction::OpenRootDir => PlayActionModel::OpenRootDir,
            PlayAction::OpenFile { name, mode } => PlayActionModel::OpenFile { name: name@, mode },
            PlayAction::ReadHeader { len } => PlayActionModel::ReadHeader { len: len as int },
            PlayAction::FillFront { fill, swapped } => PlayActionModel::FillFront {
                fill: fill@,
                swapped,
            },
            PlayAction::PlayFrontFillBack { fill, swapped } => PlayActionModel::PlayFrontFillBack {
                fill: fill@,
                swapped,
            },
            PlayAction::Done(result) => PlayActionModel::Done(result),
        }
    }
}

/// How the last action went.
pub enum PlayEvent<'a> {
    Opened,
    NotOpened,
    /// What a read of the header gave.
    HeaderRead(Result<&'a [u8], AudioError>),
    /// How many bytes a read of the audio gave.
    AudioRead(Result<usize, AudioError>),
}

/// How the last action went, over sequences of bytes.
pub enum PlayEventModel {
    Opened,
    NotOpened,
    HeaderRead(Result<Seq<u8>, AudioError>),
    AudioRead(Result<nat, AudioError>),
}

impl<'a> View for PlayEvent<'a> {
    type V = PlayEventModel;

    open spec fn view(&self) -> PlayEventModel {
        match *self {
            PlayEvent::Opened => PlayEventModel::Opened,
            PlayEvent::NotOpened => PlayEventModel::NotOpened,
            PlayEvent::HeaderRead(Ok(bytes)) => PlayEventModel::HeaderRead(Ok(bytes@)),
            PlayEvent::HeaderRead(Err(e)) => PlayEventModel::HeaderRead(Err(e)),
            PlayEvent::AudioRead(Ok(n)) => PlayEventModel::AudioRead(Ok(n as nat)),
            PlayEvent::AudioRead(Err(e)) => PlayEventModel::AudioRead(Err(e)),
        }
    }
}

/// The state of a playback.
pub struct PlayModel {
    /// The name of the file.
    pub name: Seq<char>,
    pub stage: PlayStage,
    pub header: HeaderModel,
    pub swapped: bool,
}

/// The stage that a header parser leads to.
pub open spec fn stage_of_header(header: HeaderModel) -> PlayStage {
    match header.stage {
        HeaderStage::Finished(Ok(audio)) => PlayStage::FillFront(
            AudioRest { info: audio.info, left: audio.size, kept: 0 },
        ),
        HeaderStage::Finished(Err(e)) => PlayStage::Finished(Err(e)),
        _ => PlayStage::Header,
    }
}

/// What is read and filled next.
pub open spec fn fill_of(rest: AudioRest) -> FillModel {
    FillModel { info: rest.info, kept: rest.kept as int, len: rest.wanted() }
}

/// How many bytes a read gave. One that failed gave none.
pub open spec fn bytes_given(got: Result<nat, AudioError>) -> int {
    match got {
        Ok(n) => n as int,
        Err(_) => 0,
    }
}

impl PlayModel {
    pub open spec fn initial(name: Seq<char>) -> PlayModel {
        PlayModel {
            name,
            stage: PlayStage::OpenVolume,
            header: HeaderModel::initial(),
            swapped: false,
        }
    }

    /// Until the file is open nothing of the header has been parsed, a playback that
    /// is parsing the header is not done with it, and no frame is torn before the
    /// first read of the audio.
    pub open spec fn valid(self) -> bool {
        match self.stage {
            PlayStage::OpenVolume | PlayStage::OpenRootDir | PlayStage::OpenFile => self.header
                == HeaderModel::initial(),
            PlayStage::Header => !(self.header.stage is Finished),
            PlayStage::FillFront(rest) => rest.valid() && rest.kept == 0,
            PlayStage::Play(rest) => rest.valid(),
            PlayStage::Finished(_) => true,
        }
    }

    /// What is to be done next.
    pub open spec fn action(self) -> PlayActionModel {
        match self.stage {
            PlayStage::OpenVolume => PlayActionModel::OpenVolume { volume: 0 },
            PlayStage::OpenRootDir => PlayActionModel::OpenRootDir,
            PlayStage::OpenFile => PlayActionModel::OpenFile {
                name: self.name,
                mode: FileMode::ReadOnly,
            },
            PlayStage::Header => PlayActionModel::ReadHeader { len: self.header.wanted() },
            PlayStage::FillFront(rest) => PlayActionModel::FillFront {
                fill: fill_of(rest),
                swapped: self.swapped,
            },
            PlayStage::Play(rest) => PlayActionModel::PlayFrontFillBack {
                fill: fill_of(rest),
                swapped: self.swapped,
            },
            PlayStage::Finished(result) => PlayActionModel::Done(result),
        }
    }

    /// Whether `event` can be the end of the current action. Audio whose frames have
    /// no length cannot be played.
    pub open spec fn answered_by(self, event: PlayEventModel) -> bool {
        match self.stage {
            PlayStage::OpenVolume | PlayStage::OpenRootDir | PlayStage::OpenFile => event is Opened
                || event is NotOpened,
            PlayStage::Header => match event {
                PlayEventModel::HeaderRead(Ok(bytes)) => bytes.len() <= self.header.wanted(),
                PlayEventModel::HeaderRead(Err(_)) => true,
                _ => false,
            },
            PlayStage::FillFront(rest) | PlayStage::Play(rest) => match event {
                PlayEventModel::AudioRead(got) => frame_of(rest.info) > 0 && bytes_given(got)
                    <= rest.wanted(),
                _ => false,
            },
            PlayStage::Finished(_) => false,
        }
    }

    pub open spec fn at(self, stage: PlayStage) -> PlayModel {
        PlayModel { stage, ..self }
    }

    /// The state after the current action has ended with `event`.
    pub open spec fn after(self, event: PlayEventModel) -> PlayModel {
        let opened = event is Opened;
        match self.stage {
            PlayStage::OpenVolume => self.at(
                if opened {
                    PlayStage::OpenRootDir
                } else {
                    PlayStage::Finished(Err(AudioError::ReadError))
                },
            ),
            PlayStage::OpenRootDir => self.at(
                if opened {
                    PlayStage::OpenFile
                } else {
                    PlayStage::Finished(Err(AudioError::ReadError))
                },
            ),
            PlayStage::OpenFile => self.at(
                if opened {
                    PlayStage::Header
                } else {
                    PlayStage::Finished(Err(AudioError::FileNotFound))
                },
            ),
            PlayStage::Header => {
                let header = self.header.after(event->HeaderRead_0);
                PlayModel { stage: stage_of_header(header), header, ..self }
            },
            PlayStage::FillFront(rest) => {
                let n = bytes_given(event->AudioRead_0);
                self.at(
                    if rest.frames(n) == 0 {
                        PlayStage::Finished(Err(AudioError::InvalidWav))
                    } else {
                        PlayStage::Play(rest.after(n))
                    },
                )
            },
            PlayStage::Play(rest) => {
                let n = bytes_given(event->AudioRead_0);
                if rest.frames(n) == 0 {
                    self.at(PlayStage::Finished(Ok(())))
                } else {
                    PlayModel {
                        stage: PlayStage::Play(rest.after(n)),
                        swapped: !self.swapped,
                        ..self
                    }
                }
            },
            PlayStage::Finished(_) => self,
        }
    }
}

/// The playing of one file.
pub struct WavPlayback<'a> {
    name: &'a str,
    stage: PlayStage,
    header: HeaderParser,
    swapped: bool,
}

impl<'a> View for WavPlayback<'a> {
    type V = PlayModel;

    closed spec fn view(&self) -> PlayModel {
        PlayModel {
            name: self.name@,
            stage: self.stage,
            header: self.header@,
            swapped: self.swapped,
        }
    }
}

impl<'a> WavPlayback<'a> {
    #[verifier::type_invariant]
    spec fn type_valid(self) -> bool {
        self@.valid()
    }

    /// A playback of the file of this name that has yet to begin.
    pub fn new(name: &'a str) -> (playback: WavPlayback<'a>)
        ensures
            playback@ == PlayModel::initial(name@),
    {
        WavPlayback {
            name,
            stage: PlayStage::OpenVolume,
            header: HeaderParser::new(),
            swapped: false,
        }
    }

    /// What is to be done next.
    pub fn action(&self) -> (action: PlayAction<'a>)
        ensures
            self@.valid(),
            action@ == self@.action(),
            self@.stage is OpenVolume ==> (action matches PlayAction::OpenVolume { volume }
                && volume == 0),
            self@.stage is OpenRootDir ==> action is OpenRootDir,
            self@.stage is OpenFile ==> (action matches PlayAction::OpenFile { name, mode } && name@
                == self@.name && mode is ReadOnly),
            self@.stage is Header ==> (action matches PlayAction::ReadHeader { len } && len
                == self@.header.wanted()),
            self@.stage matches PlayStage::FillFront(rest) ==> (
            action matches PlayAction::FillFront { fill, swapped } && fill.info == rest.info
                && fill.kept == rest.kept && fill.len == rest.wanted() && swapped == self@.swapped),
            self@.stage matches PlayStage::Play(rest) ==> (
            action matches PlayAction::PlayFrontFillBack { fill, swapped } && fill.info == rest.info
                && fill.kept == rest.kept && fill.len == rest.wanted() && swapped == self@.swapped),
            self@.stage matches PlayStage::Finished(result) ==> action == PlayAction::Done(result),
    {
        proof {
            use_type_invariant(self);
        }
        match self.stage {
            PlayStage::OpenVolume => PlayAction::OpenVolume { volume: VOLUME },
            PlayStage::OpenRootDir => PlayAction::OpenRootDir,
            PlayStage::OpenFile => PlayAction::OpenFile {
                name: self.name,
                mode: FileMode::ReadOnly,
            },
            PlayStage::Header => match self.header.action() {
                HeaderAction::Read { len } => PlayAction::ReadHeader { len },
                HeaderAction::Done(_) => PlayAction::ReadHeader { len: 0 },
            },
            PlayStage::FillFront(rest) => PlayAction::FillFront {
                fill: Fill { info: rest.info, kept: rest.kept, len: rest.request() },
                swapped: self.swapped,
            },
            PlayStage::Play(rest) => PlayAction::PlayFrontFillBack {
                fill: Fill { info: rest.info, kept: rest.kept, len: rest.request() },
                swapped: self.swapped,
            },
            PlayStage::Finished(result) => PlayAction::Done(result),
        }
    }

    /// Goes on after the current action has ended with `event`.
    pub fn next(self, event: PlayEvent<'_>) -> (next: WavPlayback<'a>)
        requires
            self@.answered_by(event@),
        ensures
            next@ == self@.after(event@),
    {
        proof {
            use_type_invariant(&self);
        }
        let WavPlayback { name, stage, header, swapped } = self;
        match (stage, event) {
            (PlayStage::OpenVolume, PlayEvent::Opened) => WavPlayback {
                name,
                stage: PlayStage::OpenRootDir,
                header,
                swapped,
            },
            (PlayStage::OpenRootDir, PlayEvent::Opened) => WavPlayback {
                name,
                stage: PlayStage::OpenFile,
                header,
                swapped,
            },
            (PlayStage::OpenFile, PlayEvent::Opened) => WavPlayback {
                name,
                stage: PlayStage::Header,
                header,
                swapped,
            },
            (PlayStage::OpenFile, _) => WavPlayback {
                name,
                stage: PlayStage::Finished(Err(AudioError::FileNotFound)),
                header,
                swapped,
            },
            (PlayStage::Header, PlayEvent::HeaderRead(got)) => {
                let mut header = header;
                header.feed(got);
                let stage = match header.action() {
                    HeaderAction::Done(Ok(audio)) => PlayStage::FillFront(
                        AudioRest { info: audio.info, left: audio.size, kept: 0 },
                    ),
                    HeaderAction::Done(Err(e)) => PlayStage::Finished(Err(e)),
                    HeaderAction::Read { .. } => PlayStage::Header,
                };
                WavPlayback { name, stage, header, swapped }
            },
            (PlayStage::FillFront(rest), PlayEvent::AudioRead(got)) => {
                let (frames, next) = rest.advance(
                    match got {
                        Ok(n) => n,
                        Err(_) => 0,
                    },
                );
                WavPlayback {
                    name,
                    stage: if frames == 0 {
                        PlayStage::Finished(Err(AudioError::InvalidWav))
                    } else {
                        PlayStage::Play(next)
                    },
                    header,
                    swapped,
                }
            },
            (PlayStage::Play(rest), PlayEvent::AudioRead(got)) => {
                let (frames, next) = rest.advance(
                    match got {
                        Ok(n) => n,
                        Err(_) => 0,
                    },
                );
                if frames == 0 {
                    WavPlayback { name, stage: PlayStage::Finished(Ok(())), header, swapped }
                } else {
                    WavPlayback { name, stage: PlayStage::Play(next), header, swapped: !swapped }
                }
            },
            _ => WavPlayback {
                name,
                stage: PlayStage::Finished(Err(AudioError::ReadError)),
                header,
                swapped,
            },
        }
    }
}

/// A playback opens the file of its name in the root directory of the first volume, for
/// reading alone, and then reads the header from the start of the file.
pub proof fn playback_opens_the_named_file(name: Seq<char>)
    ensures
        ({
            let start = PlayModel::initial(name);
            let root = start.after(PlayEventModel::Opened);
            let open = root.after(PlayEventModel::Opened);
            let header = open.after(PlayEventModel::Opened);
            &&& start.valid()
            &&& start.action() == (PlayActionModel::OpenVolume { volume: 0 })
            &&& root.action() == PlayActionModel::OpenRootDir
            &&& open.action() == (PlayActionModel::OpenFile { name, mode: FileMode::ReadOnly })
            &&& header.action() == (PlayActionModel::ReadHeader { len: 12 })
            &&& header.stage is Header
            &&& header.header == HeaderModel::initial()
            &&& !header.swapped
        }),
{
}

/// Every read of the audio goes behind exactly the bytes that are kept, and asks for as
/// many bytes as an output buffer takes (960 frames) or the raw buffer has room for (4096
/// bytes), and for no more than the data chunk still holds.
pub proof fn reads_ask_for_all_there_is_room_for(m: PlayModel, rest: AudioRest, room: int)
    requires
        m.stage == PlayStage::FillFront(rest) || m.stage == PlayStage::Play(rest),
        ({
            let buffer = 960 * (rest.info.num_channels * (rest.info.bits_per_sample as int / 8));
            room == (if buffer < 4096 {
                buffer
            } else {
                4096
            }) - rest.kept
        }),
    ensures
        ({
            let fill = if m.stage is FillFront {
                m.action()->FillFront_fill
            } else {
                m.action()->PlayFrontFillBack_fill
            };
            &&& m.stage is FillFront ==> m.action() is FillFront && m.action()->FillFront_swapped
                == m.swapped
            &&& m.stage is Play ==> m.action() is PlayFrontFillBack
                && m.action()->PlayFrontFillBack_swapped == m.swapped
            &&& fill.info == rest.info
            &&& fill.kept == rest.kept
            &&& fill.len == (if rest.left < room {
                rest.left as int
            } else {
                room
            })
        }),
{
}

/// Any read that gives no more than was asked for is taken, however short, and so is one
/// that fails, as long as the frames have a length.
pub proof fn every_read_is_taken(m: PlayModel, rest: AudioRest, n: nat, e: AudioError)
    requires
        m.stage == PlayStage::FillFront(rest) || m.stage == PlayStage::Play(rest),
        rest.valid(),
        rest.info.num_channels * (rest.info.bits_per_sample as int / 8) > 0,
    ensures
        n <= rest.left && n + rest.kept <= 4096 && n + rest.kept <= 960 * (rest.info.num_channels
            * (rest.info.bits_per_sample as int / 8)) ==> m.answered_by(
            PlayEventModel::AudioRead(Ok(n)),
        ),
        m.answered_by(PlayEventModel::AudioRead(Err(e))),
{
}

/// Opening can succeed or not, and a read of the header can fail or give any bytes, as
/// many as were asked for or fewer.
pub proof fn every_other_answer_is_taken(m: PlayModel, bytes: Seq<u8>, e: AudioError)
    ensures
        m.stage is OpenVolume || m.stage is OpenRootDir || m.stage is OpenFile ==> m.answered_by(
            PlayEventModel::Opened,
        ) && m.answered_by(PlayEventModel::NotOpened),
        m.stage is Header && bytes.len() <= m.header.wanted() ==> m.answered_by(
            PlayEventModel::HeaderRead(Ok(bytes)),
        ),
        m.stage is Header ==> m.answered_by(PlayEventModel::HeaderRead(Err(e))),
{
}

/// A read of the audio that completes frames leads to playing: the bytes that were read
/// are counted off, the bytes behind the last whole frame are kept, and behind the first
/// buffer the two change places. One that completes none ends the playback: before
/// anything was heard the file is invalid, and after that it has been played.
///
/// `frames` is the number of whole frames in what is kept and what was read, and `torn`
/// the number of bytes behind them.
pub proof fn reads_move_the_playback_on(
    m: PlayModel,
    rest: AudioRest,
    n: nat,
    frames: int,
    torn: int,
)
    requires
        m.stage == PlayStage::FillFront(rest) || m.stage == PlayStage::Play(rest),
        n <= rest.left,
        0 <= frames,
        0 <= torn < rest.info.num_channels * (rest.info.bits_per_sample as int / 8),
        torn <= 4096,
        rest.kept + n == frames * (rest.info.num_channels * (rest.info.bits_per_sample as int / 8))
            + torn,
    ensures
        ({
            let next = m.after(PlayEventModel::AudioRead(Ok(n)));
            &&& frames == 0 && m.stage is FillFront ==> next.stage == PlayStage::Finished(
                Err(AudioError::InvalidWav),
            )
            &&& frames == 0 && m.stage is Play ==> next.stage == PlayStage::Finished(Ok(()))
            &&& frames > 0 ==> next.stage is Play
            &&& frames > 0 ==> next.stage->Play_0.info == rest.info
            &&& frames > 0 ==> next.stage->Play_0.left == rest.left - n
            &&& frames > 0 ==> next.stage->Play_0.kept == torn
            &&& m.stage is FillFront ==> next.swapped == m.swapped
            &&& frames > 0 && m.stage is Play ==> next.swapped == !m.swapped
            &&& next.name == m.name
        }),
{
    let frame = rest.info.num_channels * (rest.info.bits_per_sample as int / 8);
    let have = rest.kept + n;
    assert(have / frame == frames && have % frame == torn) by (nonlinear_arith)
        requires
            0 <= torn < frame,
            have == frames * frame + torn,
    ;
}

/// The header leads to its outcome: its error ends the playback, and the audio that it
/// names is played from its first byte on, all of it, into the first buffer.
pub proof fn header_leads_to_its_outcome(m: PlayModel, got: Result<Seq<u8>, AudioError>)
    requires
        m.stage is Header,
    ensures
        ({
            let next = m.after(PlayEventModel::HeaderRead(got));
            &&& next.header == m.header.after(got)
            &&& next.swapped == m.swapped
            &&& next.name == m.name
            &&& next.header.stage matches HeaderStage::Finished(Err(e)) ==> next.stage
                == PlayStage::Finished(Err(e))
            &&& next.header.stage matches HeaderStage::Finished(Ok(audio)) ==> {
                &&& next.stage is FillFront
                &&& next.stage->FillFront_0.info == audio.info
                &&& next.stage->FillFront_0.left == audio.size
                &&& next.stage->FillFront_0.kept == 0
            }
            &&& !(next.header.stage is Finished) ==> next.stage is Header
        }),
{
}

/// Events are what they say.
pub proof fn events_are_taken_at_their_word(n: usize, bytes: &[u8], e: AudioError)
    ensures
        PlayEvent::Opened@ == PlayEventModel::Opened,
        PlayEvent::NotOpened@ == PlayEventModel::NotOpened,
        PlayEvent::HeaderRead(Ok(bytes))@ == PlayEventModel::HeaderRead(Ok(bytes@)),
        PlayEvent::HeaderRead(Err(e))@ == PlayEventModel::HeaderRead(Err(e)),
        PlayEvent::AudioRead(Ok(n))@ == PlayEventModel::AudioRead(Ok(n as nat)),
        PlayEvent::AudioRead(Err(e))@ == PlayEventModel::AudioRead(Err(e)),
{
}

} // verus!
