//! The verified core of a match display: a small device that plays audio files
//! from an SD card, fetches the latest match of a player over the network and
//! shows it on a touch screen.

pub mod audio;
pub mod bytes;
pub mod display;
pub mod match_info;
pub mod pcm;
pub mod playback;
pub mod request;
pub mod sd_card;
pub mod stream;
pub mod text;
pub mod touch;
pub mod wav_file;
pub mod wav_header;
