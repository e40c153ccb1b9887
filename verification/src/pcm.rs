//! PCM samples, and the words that an I2S output takes.
//!
//! A word holds two samples of sixteen bits, the left one in its low half. Samples
//! are unsigned: silence is the middle of the range.

use crate::audio::{AudioError, WavInfo};
use crate::bytes::{le16, least, read_le16};
use vstd::prelude::*;
use vstd::slice::slice_subrange;

verus! {

/// The number of words in one output buffer.
pub const BUFFER_SIZE: usize = 960;

/// The number of bytes that are read from a file at a time.
pub const RAW_BUFFER_SIZE: usize = 4096;

/// The sample that makes no sound.
pub const SILENT_SAMPLE: u16 = 0x8000;

/// The word that makes no sound.
pub const SILENT_WORD: u32 = 0x8000_8000;

/// The value of two's complement bits of width `bits`, where `modulus` is two to
/// the power of the width.
pub open spec fn signed(bits: int, modulus: int) -> int {
    if 2 * bits >= modulus {
        bits - modulus
    } else {
        bits
    }
}

/// The sample that starts at `at`: sixteen bits, unsigned, of the same amplitude.
///
/// Files hold samples of one byte unsigned and longer ones signed. A sample of
/// three bytes loses its lowest one; one of any other length is silent.
pub open spec fn sample(b: Seq<u8>, at: int, bytes_per_sample: int) -> int {
    if bytes_per_sample == 2 {
        signed(le16(b, at), 0x1_0000) + 0x8000
    } else if bytes_per_sample == 1 {
        b[at] * 256
    } else if bytes_per_sample == 3 {
        signed(le16(b, at) + 0x1_0000 * b[at + 2], 0x100_0000) / 256 + 0x8000
    } else {
        0x8000
    }
}

/// The length of a frame, one sample of each channel.
pub open spec fn frame_len(num_channels: int, bytes_per_sample: int) -> int {
    num_channels * bytes_per_sample
}

/// The word for the frame that starts at `at`. The sample of a single channel goes
/// to both sides; of more than two channels the first two are heard.
pub open spec fn word(b: Seq<u8>, at: int, num_channels: int, bytes_per_sample: int) -> int {
    let left = sample(b, at, bytes_per_sample);
    let right = if num_channels == 1 {
        left
    } else {
        sample(b, at + bytes_per_sample, bytes_per_sample)
    };
    left + 0x1_0000 * right
}

/// The number of whole frames in `len` bytes.
pub open spec fn frames_in(len: int, num_channels: int, bytes_per_sample: int) -> int {
    len / frame_len(num_channels, bytes_per_sample)
}

/// The bytes behind the last whole frame of `b`.
pub open spec fn torn_frame(b: Seq<u8>, num_channels: int, bytes_per_sample: int) -> Seq<u8> {
    b.skip(b.len() - b.len() as int % frame_len(num_channels, bytes_per_sample))
}

/// An output buffer of `len` words that plays the whole frames of `b` and then
/// keeps silent.
pub open spec fn filled(b: Seq<u8>, len: nat, num_channels: int, bytes_per_sample: int) -> Seq<u32> {
    Seq::new(
        len,
        |i: int|
            if i < frames_in(b.len() as int, num_channels, bytes_per_sample) {
                word(
                    b,
                    i * frame_len(num_channels, bytes_per_sample),
                    num_channels,
                    bytes_per_sample,
                ) as u32
            } else {
                SILENT_WORD
            },
    )
}

/// How many bytes are read to fill an output buffer of `buffer_len` words by way
/// of a raw buffer of `raw_len` bytes.
pub open spec fn fill_len(
    buffer_len: int,
    raw_len: int,
    num_channels: int,
    bytes_per_sample: int,
) -> int {
    least(buffer_len * frame_len(num_channels, bytes_per_sample), raw_len)
}

/// The length of a frame of a file.
pub open spec fn frame_of(info: WavInfo) -> int {
    frame_len(info.num_channels as int, info.bits_per_sample as int / 8)
}

/// How many bytes it takes to fill an output buffer, or the raw buffer where that
/// holds fewer.
pub open spec fn fill_bytes(info: WavInfo) -> int {
    fill_len(
        BUFFER_SIZE as int,
        RAW_BUFFER_SIZE as int,
        info.num_channels as int,
        info.bits_per_sample as int / 8,
    )
}

/// Reads the sample at the front of `bytes`.
pub fn read_pcm_sample(bytes: &[u8], bytes_per_sample: usize) -> (value: u16)
    requires
        1 <= bytes_per_sample <= 3 ==> bytes@.len() >= bytes_per_sample,
    ensures
        value == sample(bytes@, 0, bytes_per_sample as int),
        bytes_per_sample == 1 ==> value == 0x100 * bytes@[0],
        bytes_per_sample == 2 ==> value - 0x8000 == (if bytes@[1] >= 0x80 {
            bytes@[0] + 0x100 * bytes@[1] - 0x1_0000
        } else {
            bytes@[0] + 0x100 * bytes@[1]
        }),
        bytes_per_sample == 3 ==> value - 0x8000 == (if bytes@[2] >= 0x80 {
            bytes@[1] + 0x100 * bytes@[2] - 0x1_0000
        } else {
            bytes@[1] + 0x100 * bytes@[2]
        }),
        bytes_per_sample == 0 || bytes_per_sample > 3 ==> value == 0x8000,
{
    if bytes_per_sample == 2 {
        offset_binary(read_le16(bytes[0], bytes[1]))
    } else if bytes_per_sample == 1 {
        bytes[0] as u16 * 256
    } else if bytes_per_sample == 3 {
        let high = read_le16(bytes[1], bytes[2]);
        proof {
            let all = le16(bytes@, 0) + 0x1_0000 * bytes@[2];
            assert(all == bytes@[0] + 256 * high);
            assert(signed(all, 0x100_0000) == bytes@[0] + 256 * signed(high as int, 0x1_0000));
            assert(signed(all, 0x100_0000) / 256 == signed(high as int, 0x1_0000));
        }
        offset_binary(high)
    } else {
        SILENT_SAMPLE
    }
}

/// Moves a signed sample into the unsigned range.
fn offset_binary(bits: u16) -> (value: u16)
    ensures
        value == signed(bits as int, 0x1_0000) + 0x8000,
{
    assert(bits < 0x8000 ==> bits ^ 0x8000 == bits + 0x8000) by (bit_vector);
    assert(bits >= 0x8000 ==> bits ^ 0x8000 == bits - 0x8000) by (bit_vector);
    bits ^ 0x8000
}

/// Packs two samples into a word.
fn pack(left: u16, right: u16) -> (value: u32)
    ensures
        value == left + 0x1_0000 * right,
{
    assert((left as u32) | ((right as u32) << 16) == left + 0x1_0000 * right) by (bit_vector);
    (left as u32) | ((right as u32) << 16)
}

/// The number of bytes that the raw buffer is to hold before [`fill_i2s_buffer`] is
/// called.
pub fn fill_request(
    buffer_len: usize,
    raw_len: usize,
    num_channels: u16,
    bytes_per_sample: usize,
) -> (len: usize)
    ensures
        len == fill_len(
            buffer_len as int,
            raw_len as int,
            num_channels as int,
            bytes_per_sample as int,
        ),
{
    let ghost samples = buffer_len * num_channels;
    assert(samples * bytes_per_sample == buffer_len * (num_channels * bytes_per_sample))
        by (nonlinear_arith)
        requires
            samples == buffer_len * num_channels,
    ;
    assert(samples >= 0 && (bytes_per_sample > 0 ==> samples * bytes_per_sample >= samples))
        by (nonlinear_arith)
        requires
            samples == buffer_len * num_channels,
    ;
    if bytes_per_sample == 0 {
        return 0;
    }
    match buffer_len.checked_mul(num_channels as usize) {
        Some(n) => match n.checked_mul(bytes_per_sample) {
            Some(max_bytes) => if max_bytes < raw_len {
                max_bytes
            } else {
                raw_len
            },
            None => raw_len,
        },
        None => raw_len,
    }
}

/// The length of a frame of a file.
pub fn frame_bytes(info: WavInfo) -> (len: usize)
    ensures
        len == frame_of(info),
{
    let channels = info.num_channels as usize;
    let bytes = info.bytes_per_sample();
    assert(channels * bytes <= 65535 * 8191) by (nonlinear_arith)
        requires
            channels <= 65535,
            bytes <= 8191,
    ;
    channels * bytes
}

/// Where the whole frames of a block lie.
proof fn frame_lies_within(i: int, len: int, frame: int)
    requires
        frame > 0,
        0 <= i < len / frame,
    ensures
        0 <= i * frame,
        i * frame + frame <= len,
{
    assert(0 <= i * frame && i * frame + frame <= len) by (nonlinear_arith)
        requires
            frame > 0,
            0 <= i < len / frame,
    ;
}

/// No more frames were read than the output buffer has words.
proof fn frames_fit(n: int, buffer_len: int, frame: int)
    requires
        frame > 0,
        0 <= n <= buffer_len * frame,
    ensures
        0 <= n / frame <= buffer_len,
{
    assert(0 <= n / frame <= buffer_len) by (nonlinear_arith)
        requires
            frame > 0,
            0 <= n <= buffer_len * frame,
    ;
}

/// Samples are cut out of a block where they stand.
proof fn sample_of_tail(b: Seq<u8>, at: int, bytes_per_sample: int)
    requires
        0 <= at,
        1 <= bytes_per_sample <= 3 ==> at + bytes_per_sample <= b.len(),
        at <= b.len(),
    ensures
        sample(b.subrange(at, b.len() as int), 0, bytes_per_sample) == sample(
            b,
            at,
            bytes_per_sample,
        ),
        0 <= sample(b, at, bytes_per_sample) <= 0xFFFF,
{
}

/// Fills `buffer` with the frames that a read has put at the front of `raw_buf`,
/// and with silence behind them. `got` is the number of bytes that were read; a
/// failed read gave none. Returns the number of frames.
pub fn fill_i2s_buffer(
    got: Result<usize, AudioError>,
    raw_buf: &[u8],
    buffer: &mut [u32],
    num_channels: u16,
    bytes_per_sample: usize,
) -> (total_samples: usize)
    requires
        0 < frame_len(num_channels as int, bytes_per_sample as int) <= usize::MAX,
        got is Ok ==> got->Ok_0 <= fill_len(
            old(buffer)@.len() as int,
            raw_buf@.len() as int,
            num_channels as int,
            bytes_per_sample as int,
        ),
    ensures
        ({
            let read = match got {
                Ok(n) => raw_buf@.take(n as int),
                Err(_) => Seq::empty(),
            };
            &&& total_samples == frames_in(
                read.len() as int,
                num_channels as int,
                bytes_per_sample as int,
            )
            &&& final(buffer)@ == filled(
                read,
                old(buffer)@.len(),
                num_channels as int,
                bytes_per_sample as int,
            )
        }),
{
    let bytes_read: usize = match got {
        Ok(n) => n,
        Err(_) => 0,
    };
    let ghost read = raw_buf@.take(bytes_read as int);
    assert(got is Err ==> read =~= Seq::empty());
    let frame_bytes: usize = num_channels as usize * bytes_per_sample;
    let ghost frame = frame_bytes as int;
    assert(frame == frame_len(num_channels as int, bytes_per_sample as int));
    assert(0 <= buffer@.len() * frame) by (nonlinear_arith)
        requires
            frame > 0,
    ;
    let total_samples: usize = bytes_read / frame_bytes;
    proof {
        frames_fit(bytes_read as int, buffer@.len() as int, frame);
        assert(bytes_per_sample > 0 && num_channels > 0) by (nonlinear_arith)
            requires
                num_channels * bytes_per_sample > 0,
                num_channels >= 0,
                bytes_per_sample >= 0,
        ;
    }
    let len: usize = buffer.len();
    let ghost want = filled(read, len as nat, num_channels as int, bytes_per_sample as int);

    let mut i: usize = 0;
    while i < total_samples
        invariant
            i <= total_samples <= len,
            len == buffer@.len() == old(buffer)@.len(),
            frame == frame_bytes > 0,
            frame == frame_len(num_channels as int, bytes_per_sample as int),
            bytes_per_sample > 0,
            num_channels > 0,
            bytes_read <= raw_buf@.len(),
            read == raw_buf@.take(bytes_read as int),
            total_samples == read.len() as int / frame,
            want == filled(read, len as nat, num_channels as int, bytes_per_sample as int),
            forall|k: int| 0 <= k < i ==> buffer@[k] == want[k],
        decreases total_samples - i,
    {
        proof {
            frame_lies_within(i as int, read.len() as int, frame);
            assert(num_channels >= 2 ==> 2 * bytes_per_sample <= frame) by (nonlinear_arith)
                requires
                    frame == num_channels * bytes_per_sample,
                    bytes_per_sample > 0,
            ;
        }
        let offset: usize = i * frame_bytes;
        assert(num_channels == 1 ==> frame == bytes_per_sample) by (nonlinear_arith)
            requires
                frame == num_channels * bytes_per_sample,
        ;
        let at = slice_subrange(raw_buf, offset, raw_buf.len());
        let left = read_pcm_sample(at, bytes_per_sample);
        proof {
            sample_of_tail(raw_buf@, offset as int, bytes_per_sample as int);
            assert(sample(raw_buf@, offset as int, bytes_per_sample as int) == sample(
                read,
                offset as int,
                bytes_per_sample as int,
            ));
        }
        if num_channels == 1 {
            buffer[i] = (left as u32).wrapping_mul(0x10001);
        } else {
            let next: usize = offset + bytes_per_sample;
            let right = read_pcm_sample(slice_subrange(raw_buf, next, raw_buf.len()), bytes_per_sample);
            proof {
                sample_of_tail(raw_buf@, next as int, bytes_per_sample as int);
                assert(sample(raw_buf@, next as int, bytes_per_sample as int) == sample(
                    read,
                    next as int,
                    bytes_per_sample as int,
                ));
            }
            buffer[i] = pack(left, right);
        }
        i = i + 1;
    }

    let mut j: usize = total_samples;
    while j < len
        invariant
            total_samples <= j <= len,
            len == buffer@.len() == old(buffer)@.len(),
            frame == frame_len(num_channels as int, bytes_per_sample as int),
            total_samples == read.len() as int / frame,
            want == filled(read, len as nat, num_channels as int, bytes_per_sample as int),
            forall|k: int| 0 <= k < j ==> buffer@[k] == want[k],
        decreases len - j,
    {
        buffer[j] = SILENT_WORD;
        j = j + 1;
    }
    assert(buffer@ =~= want);
    total_samples
}

/// Moves the bytes behind the last whole frame to the front of `raw_buf`, where the
/// next read goes on behind them. `len` is the number of bytes that `raw_buf` holds.
/// Returns how many were moved.
pub fn keep_torn(
    raw_buf: &mut [u8],
    len: usize,
    num_channels: u16,
    bytes_per_sample: usize,
) -> (torn: usize)
    requires
        0 < frame_len(num_channels as int, bytes_per_sample as int) <= usize::MAX,
        len <= old(raw_buf)@.len(),
    ensures
        ({
            let kept = torn_frame(
                old(raw_buf)@.take(len as int),
                num_channels as int,
                bytes_per_sample as int,
            );
            &&& torn == kept.len()
            &&& final(raw_buf)@ == kept + old(raw_buf)@.skip(torn as int)
        }),
{
    let frame_bytes: usize = num_channels as usize * bytes_per_sample;
    let torn: usize = len % frame_bytes;
    assert(torn <= len) by (nonlinear_arith)
        requires
            frame_bytes > 0,
            torn == len % frame_bytes,
    ;
    let start: usize = len - torn;
    let room: usize = raw_buf.len();
    assert(start == 0 || start > torn) by (nonlinear_arith)
        requires
            frame_bytes > 0,
            torn == len % frame_bytes,
            start == len - torn,
    ;
    let mut i: usize = 0;
    while i < torn
        invariant
            i <= torn,
            start + torn == len <= room == old(raw_buf)@.len(),
            start == 0 || start > torn,
            raw_buf@ =~= old(raw_buf)@.subrange(start as int, start + i) + old(raw_buf)@.skip(
                i as int,
            ),
        decreases torn - i,
    {
        raw_buf[i] = raw_buf[start + i];
        i = i + 1;
    }
    assert(torn_frame(old(raw_buf)@.take(len as int), num_channels as int, bytes_per_sample as int)
        =~= old(raw_buf)@.subrange(start as int, len as int));
    torn
}

/// Every sample fits into sixteen bits.
proof fn sample_range(b: Seq<u8>, at: int, bytes_per_sample: int)
    ensures
        0 <= sample(b, at, bytes_per_sample) <= u16::MAX,
{
    if bytes_per_sample == 3 {
        let bits = le16(b, at) + 0x1_0000 * b[at + 2];
        assert(-0x80_0000 <= signed(bits, 0x100_0000) < 0x80_0000);
    }
}

/// The halves of a word.
proof fn word_halves(left: int, right: int)
    requires
        0 <= left <= u16::MAX,
        0 <= right <= u16::MAX,
    ensures
        0 <= left + 0x1_0000 * right <= u32::MAX,
        (left + 0x1_0000 * right) % 0x1_0000 == left,
        (left + 0x1_0000 * right) / 0x1_0000 == right,
{
}

/// Every sample fits into sixteen bits and every word into thirty-two, with the
/// left sample in its low half and the right one in its high half.
pub proof fn words_hold_their_samples(
    b: Seq<u8>,
    at: int,
    num_channels: int,
    bytes_per_sample: int,
)
    ensures
        0 <= sample(b, at, bytes_per_sample) <= u16::MAX,
        0 <= word(b, at, num_channels, bytes_per_sample) <= u32::MAX,
        word(b, at, num_channels, bytes_per_sample) % 0x1_0000 == sample(b, at, bytes_per_sample),
        num_channels == 1 ==> word(b, at, num_channels, bytes_per_sample) / 0x1_0000 == sample(
            b,
            at,
            bytes_per_sample,
        ),
        num_channels != 1 ==> word(b, at, num_channels, bytes_per_sample) / 0x1_0000 == sample(
            b,
            at + bytes_per_sample,
            bytes_per_sample,
        ),
{
    let left = sample(b, at, bytes_per_sample);
    let next = sample(b, at + bytes_per_sample, bytes_per_sample);
    sample_range(b, at, bytes_per_sample);
    sample_range(b, at + bytes_per_sample, bytes_per_sample);
    word_halves(
        left,
        if num_channels == 1 {
            left
        } else {
            next
        },
    );
}

/// A frame of no amplitude sounds like the silence behind the last frame: signed
/// samples of zero, or unsigned samples in the middle of their range.
pub proof fn zero_amplitude_is_silent(
    b: Seq<u8>,
    at: int,
    num_channels: int,
    bytes_per_sample: int,
)
    requires
        forall|i: int|
            at <= i < at + bytes_per_sample || num_channels != 1 && at + bytes_per_sample <= i < at
                + 2 * bytes_per_sample ==> b[i] == (if bytes_per_sample == 1 {
                0x80u8
            } else {
                0u8
            }),
    ensures
        word(b, at, num_channels, bytes_per_sample) == SILENT_WORD,
{
}

/// A sample of two bytes keeps its amplitude: the result lies as far from the middle
/// of the range as the signed number that the bytes spell lies from zero.
pub proof fn two_byte_samples_keep_their_amplitude(b: Seq<u8>, at: int, v: int)
    requires
        -0x8000 <= v < 0x8000,
        b[at] + 0x100 * b[at + 1] == (if v < 0 {
            v + 0x1_0000
        } else {
            v
        }),
    ensures
        sample(b, at, 2) - 0x8000 == v,
{
}

/// A sample of one byte keeps its amplitude, in steps of 256: it is unsigned, and 128
/// is silent.
pub proof fn one_byte_samples_keep_their_amplitude(b: Seq<u8>, at: int)
    ensures
        sample(b, at, 1) - 0x8000 == 0x100 * (b[at] - 0x80),
{
}

/// A sample of three bytes keeps its amplitude but for its lowest byte.
pub proof fn three_byte_samples_keep_their_amplitude(b: Seq<u8>, at: int, v: int)
    requires
        -0x80_0000 <= v < 0x80_0000,
        b[at] + 0x100 * b[at + 1] + 0x1_0000 * b[at + 2] == (if v < 0 {
            v + 0x100_0000
        } else {
            v
        }),
    ensures
        0x100 * (sample(b, at, 3) - 0x8000) <= v < 0x100 * (sample(b, at, 3) - 0x8000) + 0x100,
{
}

/// Samples of other lengths are silent.
pub proof fn other_samples_are_silent(b: Seq<u8>, at: int, bytes_per_sample: int)
    requires
        bytes_per_sample < 1 || bytes_per_sample > 3,
    ensures
        sample(b, at, bytes_per_sample) == 0x8000,
{
}

/// A louder sample is never heard as a softer one: where two samples of two bytes
/// differ by an amount, so do the results.
pub proof fn two_byte_samples_keep_differences(b: Seq<u8>, c: Seq<u8>, v: int, w: int)
    requires
        -0x8000 <= v < 0x8000,
        -0x8000 <= w < 0x8000,
        b[0] + 0x100 * b[1] == (if v < 0 {
            v + 0x1_0000
        } else {
            v
        }),
        c[0] + 0x100 * c[1] == (if w < 0 {
            w + 0x1_0000
        } else {
            w
        }),
    ensures
        sample(b, 0, 2) - sample(c, 0, 2) == v - w,
{
}

/// The words of an output buffer: one that a whole frame is there for holds the first
/// sample of that frame in its low half, and in its high half the second one, or the
/// first again where there is no second channel. The others are silent.
pub proof fn each_word_plays_its_frame(
    b: Seq<u8>,
    len: nat,
    num_channels: int,
    bytes_per_sample: int,
    i: int,
)
    requires
        num_channels > 0,
        bytes_per_sample > 0,
        0 <= i < len,
    ensures
        filled(b, len, num_channels, bytes_per_sample).len() == len,
        (i + 1) * (num_channels * bytes_per_sample) <= b.len() ==> filled(
            b,
            len,
            num_channels,
            bytes_per_sample,
        )[i] as int % 0x1_0000 == sample(
            b,
            i * (num_channels * bytes_per_sample),
            bytes_per_sample,
        ),
        (i + 1) * (num_channels * bytes_per_sample) <= b.len() ==> filled(
            b,
            len,
            num_channels,
            bytes_per_sample,
        )[i] as int / 0x1_0000 == sample(
            b,
            if num_channels == 1 {
                i * (num_channels * bytes_per_sample)
            } else {
                i * (num_channels * bytes_per_sample) + bytes_per_sample
            },
            bytes_per_sample,
        ),
        (i + 1) * (num_channels * bytes_per_sample) > b.len() ==> filled(
            b,
            len,
            num_channels,
            bytes_per_sample,
        )[i] == 0x8000_8000,
{
    let frame = num_channels * bytes_per_sample;
    let n = b.len() as int;
    assert(frame > 0 && ((i + 1) * frame <= n <==> i < n / frame)) by (nonlinear_arith)
        requires
            num_channels > 0,
            bytes_per_sample > 0,
            frame == num_channels * bytes_per_sample,
            i >= 0,
            n >= 0,
    ;
    words_hold_their_samples(b, i * frame, num_channels, bytes_per_sample);
}

/// As many frames are counted as lie whole in the bytes.
pub proof fn frames_in_counts_whole_frames(len: int, num_channels: int, bytes_per_sample: int)
    requires
        len >= 0,
        num_channels > 0,
        bytes_per_sample > 0,
    ensures
        0 <= frames_in(len, num_channels, bytes_per_sample),
        frames_in(len, num_channels, bytes_per_sample) * (num_channels * bytes_per_sample) <= len,
        len < (frames_in(len, num_channels, bytes_per_sample) + 1) * (num_channels
            * bytes_per_sample),
{
    let frame = num_channels * bytes_per_sample;
    assert(frame > 0 && 0 <= len / frame && (len / frame) * frame <= len < (len / frame + 1)
        * frame) by (nonlinear_arith)
        requires
            len >= 0,
            num_channels > 0,
            bytes_per_sample > 0,
            frame == num_channels * bytes_per_sample,
    ;
}

/// As much is read as an output buffer takes, or as the raw buffer holds where that is
/// less.
pub proof fn reads_fill_a_buffer(
    buffer_len: int,
    raw_len: int,
    num_channels: int,
    bytes_per_sample: int,
)
    ensures
        fill_len(buffer_len, raw_len, num_channels, bytes_per_sample) <= raw_len,
        fill_len(buffer_len, raw_len, num_channels, bytes_per_sample) <= buffer_len * (num_channels
            * bytes_per_sample),
        fill_len(buffer_len, raw_len, num_channels, bytes_per_sample) == raw_len || fill_len(
            buffer_len,
            raw_len,
            num_channels,
            bytes_per_sample,
        ) == buffer_len * (num_channels * bytes_per_sample),
{
}

/// The sizes for a file: its frames hold a sample of each channel, and a read fills 960
/// words or the 4096 bytes of the raw buffer.
pub proof fn sizes_follow_the_format(info: WavInfo)
    ensures
        frame_of(info) == info.num_channels * (info.bits_per_sample as int / 8),
        fill_bytes(info) == (if 960 * (info.num_channels * (info.bits_per_sample as int / 8))
            < 4096 {
            960 * (info.num_channels * (info.bits_per_sample as int / 8))
        } else {
            4096
        }),
{
}

/// A torn frame is what is left of the bytes when their whole frames are taken away.
pub proof fn torn_frame_is_the_rest(
    b: Seq<u8>,
    num_channels: int,
    bytes_per_sample: int,
    frames: int,
)
    requires
        num_channels > 0,
        bytes_per_sample > 0,
        0 <= frames,
        frames * (num_channels * bytes_per_sample) <= b.len() < (frames + 1) * (num_channels
            * bytes_per_sample),
    ensures
        torn_frame(b, num_channels, bytes_per_sample) == b.subrange(
            frames * (num_channels * bytes_per_sample),
            b.len() as int,
        ),
{
    let frame = num_channels * bytes_per_sample;
    let n = b.len() as int;
    assert(frame > 0 && n % frame == n - frames * frame) by (nonlinear_arith)
        requires
            num_channels > 0,
            bytes_per_sample > 0,
            frame == num_channels * bytes_per_sample,
            frames * frame <= n < (frames + 1) * frame,
    ;
    assert(0 <= frames * frame) by (nonlinear_arith)
        requires
            frame > 0,
            frames >= 0,
    ;
    assert(torn_frame(b, num_channels, bytes_per_sample) =~= b.subrange(frames * frame, n));
}

} // verus!
