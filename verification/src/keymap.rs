//! The fixed host-keyboard layout: which hex keypad key a pressed byte
//! stands for. The polling of the keyboard itself lives outside the
//! library; it hands the raw byte in here.
use vstd::prelude::*;

verus! {

/// The layout: 1,2,3,4 / q,w,e,r / a,s,d,f / z,x,c,v map column-wise to
/// 1,2,3,C / 4,5,6,D / 7,8,9,E / A,0,B,F; anything else is no keypad key.
pub open spec fn spec_map_key(b: u8) -> Option<u8> {
    if b == 49 {
        Some(0x1u8)
    } else if b == 50 {
        Some(0x2u8)
    } else if b == 51 {
        Some(0x3u8)
    } else if b == 52 {
        Some(0xCu8)
    } else if b == 113 {
        Some(0x4u8)
    } else if b == 119 {
        Some(0x5u8)
    } else if b == 101 {
        Some(0x6u8)
    } else if b == 114 {
        Some(0xDu8)
    } else if b == 97 {
        Some(0x7u8)
    } else if b == 115 {
        Some(0x8u8)
    } else if b == 100 {
        Some(0x9u8)
    } else if b == 102 {
        Some(0xEu8)
    } else if b == 122 {
        Some(0xAu8)
    } else if b == 120 {
        Some(0x0u8)
    } else if b == 99 {
        Some(0xBu8)
    } else if b == 118 {
        Some(0xFu8)
    } else {
        None
    }
}

/// Maps one host keyboard byte to its keypad key, or `None` for a byte
/// outside the layout.
pub fn map_key(b: u8) -> (r: Option<u8>)
    ensures
        r == spec_map_key(b),
        r matches Some(k) ==> k < 16,
{
    match b {
        49 => Some(0x1),
        50 => Some(0x2),
        51 => Some(0x3),
        52 => Some(0xC),
        113 => Some(0x4),
        119 => Some(0x5),
        101 => Some(0x6),
        114 => Some(0xD),
        97 => Some(0x7),
        115 => Some(0x8),
        100 => Some(0x9),
        102 => Some(0xE),
        122 => Some(0xA),
        120 => Some(0x0),
        99 => Some(0xB),
        118 => Some(0xF),
        _ => None,
    }
}

} // verus!
