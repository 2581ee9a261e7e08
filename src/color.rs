//! Channel-wise comparison of a colour against a 24-bit reference.

use vstd::prelude::*;

verus! {

/// The red channel of a colour written as `0xRRGGBB`.
pub open spec fn spec_red(c: u32) -> u8 {
    ((c >> 16u32) & 0xffu32) as u8
}

/// The green channel of a colour written as `0xRRGGBB`.
pub open spec fn spec_green(c: u32) -> u8 {
    ((c >> 8u32) & 0xffu32) as u8
}

/// The blue channel of a colour written as `0xRRGGBB`.
pub open spec fn spec_blue(c: u32) -> u8 {
    (c & 0xffu32) as u8
}

/// Distance between two channel values.
pub open spec fn channel_distance(a: u8, b: u8) -> int {
    if a >= b {
        a - b
    } else {
        b - a
    }
}

/// Each of the three channels of `got` lies within `tolerance` of the same
/// channel of `expected`, independently of the other two.
pub open spec fn spec_colors_match(got: (u8, u8, u8), expected: u32, tolerance: u8) -> bool {
    &&& channel_distance(got.0, spec_red(expected)) <= tolerance
    &&& channel_distance(got.1, spec_green(expected)) <= tolerance
    &&& channel_distance(got.2, spec_blue(expected)) <= tolerance
}

pub fn red_of(c: u32) -> (r: u8)
    ensures
        r == spec_red(c),
{
    ((c >> 16u32) & 0xffu32) as u8
}

pub fn green_of(c: u32) -> (r: u8)
    ensures
        r == spec_green(c),
{
    ((c >> 8u32) & 0xffu32) as u8
}

pub fn blue_of(c: u32) -> (r: u8)
    ensures
        r == spec_blue(c),
{
    (c & 0xffu32) as u8
}

/// Distance between two channel values, taken as the larger minus the smaller
/// so that it never goes below zero.
fn distance(a: u8, b: u8) -> (r: u8)
    ensures
        r as int == channel_distance(a, b),
{
    if a >= b {
        a - b
    } else {
        b - a
    }
}

/// Whether every channel of `got` is within `tolerance` of `expected`
/// (`0xRRGGBB`). This is a per-channel bound, not a distance in colour space.
pub fn colors_match(got: (u8, u8, u8), expected: u32, tolerance: u8) -> (r: bool)
    ensures
        r == spec_colors_match(got, expected, tolerance),
{
    distance(got.0, red_of(expected)) <= tolerance
        && distance(got.1, green_of(expected)) <= tolerance
        && distance(got.2, blue_of(expected)) <= tolerance
}

/// The colour `0xRRGGBB` with the given channels.
pub open spec fn pack(r: u8, g: u8, b: u8) -> u32 {
    ((r as u32) << 16u32) | ((g as u32) << 8u32) | (b as u32)
}

proof fn lemma_pack_channels(r: u8, g: u8, b: u8)
    ensures
        spec_red(pack(r, g, b)) == r,
        spec_green(pack(r, g, b)) == g,
        spec_blue(pack(r, g, b)) == b,
{
    let (r32, g32, b32) = (r as u32, g as u32, b as u32);
    assert((((r32 << 16u32) | (g32 << 8u32) | b32) >> 16u32) & 0xffu32 == r32) by (bit_vector)
        requires
            r32 <= 0xff,
            g32 <= 0xff,
            b32 <= 0xff,
    ;
    assert((((r32 << 16u32) | (g32 << 8u32) | b32) >> 8u32) & 0xffu32 == g32) by (bit_vector)
        requires
            r32 <= 0xff,
            g32 <= 0xff,
            b32 <= 0xff,
    ;
    assert(((r32 << 16u32) | (g32 << 8u32) | b32) & 0xffu32 == b32) by (bit_vector)
        requires
            r32 <= 0xff,
            g32 <= 0xff,
            b32 <= 0xff,
    ;
}

/// The match does not depend on which channel comes first: moving the
/// channels of both colours round in the same way gives the same answer.
/// And each channel is judged alone: one channel out of tolerance fails the
/// match, however close the other two are.
pub proof fn lemma_match_is_per_channel(got: (u8, u8, u8), expected: u32, tolerance: u8)
    ensures
        spec_colors_match(got, expected, tolerance) == spec_colors_match(
            (got.1, got.2, got.0),
            pack(spec_green(expected), spec_blue(expected), spec_red(expected)),
            tolerance,
        ),
        spec_colors_match(got, expected, tolerance) == spec_colors_match(
            (got.2, got.1, got.0),
            pack(spec_blue(expected), spec_green(expected), spec_red(expected)),
            tolerance,
        ),
        channel_distance(got.0, spec_red(expected)) > tolerance ==> !spec_colors_match(
            got,
            expected,
            tolerance,
        ),
        channel_distance(got.1, spec_green(expected)) > tolerance ==> !spec_colors_match(
            got,
            expected,
            tolerance,
        ),
        channel_distance(got.2, spec_blue(expected)) > tolerance ==> !spec_colors_match(
            got,
            expected,
            tolerance,
        ),
{
    lemma_pack_channels(spec_green(expected), spec_blue(expected), spec_red(expected));
    lemma_pack_channels(spec_blue(expected), spec_green(expected), spec_red(expected));
}

} // verus!
