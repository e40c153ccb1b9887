//! What the audio path can report: errors, and the format of a WAV file.

use vstd::prelude::*;

verus! {

/// Why a WAV file could not be played.
#[derive(Debug, Clone, Copy, PartialEq, Eq, Structural)]
pub enum AudioError {
    FileNotFound,
    InvalidWav,
    UnsupportedFormat,
    ReadError,
}

/// The format of the PCM data of a WAV file.
#[derive(Debug, Clone, Copy, PartialEq, Eq, Structural)]
pub struct WavInfo {
    pub sample_rate: u32,
    pub bits_per_sample: u16,
    pub num_channels: u16,
}

/// The audio of a WAV file: its format, and the number of bytes that its data chunk
/// is said to hold.
#[derive(Debug, Clone, Copy, PartialEq, Eq, Structural)]
pub struct WavAudio {
    pub info: WavInfo,
    pub size: u32,
}

impl WavInfo {
    /// The number of whole bytes in a sample.
    pub fn bytes_per_sample(&self) -> (n: usize)
        ensures
            n == self.bits_per_sample / 8,
    {
        (self.bits_per_sample / 8) as usize
    }
}

} // verus!
