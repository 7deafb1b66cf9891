//! Instruction decoding: pure field extraction over a 16-bit instruction
//! word formed from two consecutive memory bytes, high byte first.
use vstd::prelude::*;

verus! {

/// Register selector `x`: bits 8..12 of the word.
pub open spec fn spec_x(upcode: u16) -> usize {
    ((upcode & 0x0F00) >> 8) as usize
}

/// Register selector `y`: bits 4..8 of the word.
pub open spec fn spec_y(upcode: u16) -> usize {
    ((upcode & 0x00F0) >> 4) as usize
}

/// Low nibble `n`: bits 0..4 of the word.
pub open spec fn spec_n(upcode: u16) -> u16 {
    upcode & 0x000F
}

/// Address field `nnn`: bits 0..12 of the word.
pub open spec fn spec_nnn(upcode: u16) -> u16 {
    upcode & 0x0FFF
}

/// Immediate byte `kk`: bits 0..8 of the word.
pub open spec fn spec_kk(upcode: u16) -> u8 {
    (upcode & 0x00FF) as u8
}

/// Opcode group: the top 4 bits of the word.
pub open spec fn spec_bg_id(upcode: u16) -> u16 {
    (upcode & 0xF000) >> 12
}

/// Sub-selector equal to the low nibble.
pub open spec fn spec_end_id(upcode: u16) -> u16 {
    upcode & 0x000F
}

/// Sub-selector equal to the low byte.
pub open spec fn spec_two_end_id(upcode: u16) -> u16 {
    upcode & 0x00FF
}

/// Row-major index of pixel (xx, yy) in the 64 x 32 display grid.
pub open spec fn spec_index(xx: usize, yy: usize) -> usize
    recommends
        xx < 64,
        yy < 32,
{
    (yy * 64 + xx) as usize
}

/// The decoded fields all lie in their natural ranges.
pub proof fn lemma_decode_bounds(upcode: u16)
    by (bit_vector)
    ensures
        (upcode & 0x0F00) >> 8 < 16,
        (upcode & 0x00F0) >> 4 < 16,
        upcode & 0x000F < 16,
        upcode & 0x0FFF < 4096,
        upcode & 0x00FF < 256,
        (upcode & 0xF000) >> 12 < 16,
{
}

pub fn x(upcode: u16) -> (r: usize)
    ensures
        r == spec_x(upcode),
        r < 16,
{
    proof { lemma_decode_bounds(upcode); }
    ((upcode & 0x0F00) >> 8) as usize
}

pub fn y(upcode: u16) -> (r: usize)
    ensures
        r == spec_y(upcode),
        r < 16,
{
    proof { lemma_decode_bounds(upcode); }
    ((upcode & 0x00F0) >> 4) as usize
}

pub fn n(upcode: u16) -> (r: u16)
    ensures
        r == spec_n(upcode),
        r < 16,
{
    proof { lemma_decode_bounds(upcode); }
    upcode & 0x000F
}

pub fn nnn(upcode: u16) -> (r: u16)
    ensures
        r == spec_nnn(upcode),
        r < 4096,
{
    proof { lemma_decode_bounds(upcode); }
    upcode & 0x0FFF
}

pub fn kk(upcode: u16) -> (r: u8)
    ensures
        r == spec_kk(upcode),
{
    (upcode & 0x00FF) as u8
}

pub fn bg_id(upcode: u16) -> (r: u16)
    ensures
        r == spec_bg_id(upcode),
        r < 16,
{
    proof { lemma_decode_bounds(upcode); }
    (upcode & 0xF000) >> 12
}

pub fn end_id(upcode: u16) -> (r: u16)
    ensures
        r == spec_end_id(upcode),
        r < 16,
{
    proof { lemma_decode_bounds(upcode); }
    upcode & 0x000F
}

pub fn two_end_id(upcode: u16) -> (r: u16)
    ensures
        r == spec_two_end_id(upcode),
        r < 256,
{
    proof { lemma_decode_bounds(upcode); }
    upcode & 0x00FF
}

pub fn index(xx: usize, yy: usize) -> (r: usize)
    requires
        xx < 64,
        yy < 32,
    ensures
        r == spec_index(xx, yy),
        r < 2048,
{
    yy * 64 + xx
}

} // verus!
