//! Integers and blocks of bytes, as the file formats and devices spell them.

use vstd::prelude::*;

verus! {

/// The lesser of two numbers.
pub open spec fn least(a: int, b: int) -> int {
    if a < b {
        a
    } else {
        b
    }
}

/// The value of two bytes, least significant first.
pub open spec fn le16(b: Seq<u8>, at: int) -> int {
    b[at] + 256 * b[at + 1]
}

/// The value of four bytes, least significant first.
pub open spec fn le32(b: Seq<u8>, at: int) -> int {
    b[at] + 256 * b[at + 1] + 65536 * b[at + 2] + 16777216 * b[at + 3]
}

/// `block` with its first bytes replaced by `front`.
pub open spec fn overlay(block: Seq<u8>, front: Seq<u8>) -> Seq<u8> {
    Seq::new(
        block.len(),
        |i: int|
            if i < front.len() {
                front[i]
            } else {
                block[i]
            },
    )
}

/// Whether the four bytes of `b` that start at `at` spell `tag`.
pub open spec fn has_tag(b: Seq<u8>, at: int, tag: Seq<u8>) -> bool {
    b.subrange(at, at + 4) == tag
}

/// Two bytes, least significant first, as an integer.
pub fn read_le16(low: u8, high: u8) -> (value: u16)
    ensures
        value == low + 256 * high,
{
    low as u16 + 256 * (high as u16)
}

/// Four bytes, least significant first, as an integer.
pub fn read_le32(b0: u8, b1: u8, b2: u8, b3: u8) -> (value: u32)
    ensures
        value == b0 + 256 * b1 + 65536 * b2 + 16777216 * b3,
{
    b0 as u32 + 256 * (b1 as u32) + 65536 * (b2 as u32) + 16777216 * (b3 as u32)
}

/// Two bytes, most significant first, as an integer.
pub fn read_be16(high: u8, low: u8) -> (value: u16)
    ensures
        value == 256 * high + low,
{
    256 * (high as u16) + low as u16
}

/// Two bytes that spell a number, least significant first, are read as that number.
pub proof fn le16_reads_what_is_spelled(b: Seq<u8>, at: int, v: int)
    requires
        0 <= v < 0x1_0000,
        b[at] == v % 0x100,
        b[at + 1] == v / 0x100,
    ensures
        le16(b, at) == v,
{
}

/// Four bytes that spell a number, least significant first, are read as that number.
pub proof fn le32_reads_what_is_spelled(b: Seq<u8>, at: int, v: int)
    requires
        0 <= v < 0x1_0000_0000,
        b[at] == v % 0x100,
        b[at + 1] == v / 0x100 % 0x100,
        b[at + 2] == v / 0x1_0000 % 0x100,
        b[at + 3] == v / 0x100_0000,
    ensures
        le32(b, at) == v,
{
}

/// The front of a block is replaced byte for byte, and nothing behind it changes.
pub proof fn overlay_replaces_the_front(block: Seq<u8>, front: Seq<u8>, i: int)
    requires
        0 <= i < block.len(),
    ensures
        overlay(block, front).len() == block.len(),
        overlay(block, front)[i] == (if i < front.len() {
            front[i]
        } else {
            block[i]
        }),
{
}

/// A tag is found exactly where its four bytes stand.
pub proof fn tags_are_found_byte_by_byte(b: Seq<u8>, at: int, tag: Seq<u8>)
    requires
        0 <= at,
        at + 4 <= b.len(),
        tag.len() == 4,
    ensures
        has_tag(b, at, tag) <==> b[at] == tag[0] && b[at + 1] == tag[1] && b[at + 2] == tag[2]
            && b[at + 3] == tag[3],
{
    let part = b.subrange(at, at + 4);
    assert(part[0] == b[at] && part[1] == b[at + 1] && part[2] == b[at + 2] && part[3] == b[at
        + 3]);
    if b[at] == tag[0] && b[at + 1] == tag[1] && b[at + 2] == tag[2] && b[at + 3] == tag[3] {
        assert(part =~= tag);
    }
}

} // verus!
