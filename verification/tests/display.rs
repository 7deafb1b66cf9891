use krhip8::chip8::{Chip8, Chip8Errors};

/// The built-in glyph for "0", five rows of one byte.
const GLYPH_ZERO: [u8; 5] = [0xF0, 0x90, 0x90, 0x90, 0xF0];

fn sprite_bit(row_byte: u8, col: usize) -> bool {
    (row_byte >> (7 - col)) & 1 == 1
}

#[test]
fn draw_glyph_and_collision_flags() {
    let mut c = Chip8::new();
    assert_eq!(c.exec(0x6005, 0), Ok(())); // V0 = 5 (x)
    assert_eq!(c.exec(0x6103, 0), Ok(())); // V1 = 3 (y)
    assert_eq!(c.exec(0xA050, 0), Ok(())); // IR = font glyph "0"
    assert_eq!(c.exec(0xD015, 0), Ok(())); // draw 8x5 at (5, 3)
    assert_eq!(c.reg(0xF), 0); // empty screen: nothing erased
    for r in 0..5 {
        for col in 0..8 {
            assert_eq!(c.pixel(5 + col, 3 + r), sprite_bit(GLYPH_ZERO[r], col));
        }
    }
}

#[test]
fn draw_twice_erases() {
    let mut c = Chip8::new();
    assert_eq!(c.exec(0x6005, 0), Ok(()));
    assert_eq!(c.exec(0x6103, 0), Ok(()));
    assert_eq!(c.exec(0xA050, 0), Ok(()));
    assert_eq!(c.exec(0xD015, 0), Ok(()));
    assert_eq!(c.reg(0xF), 0);
    assert_eq!(c.exec(0xD015, 0), Ok(())); // same sprite, same position
    assert_eq!(c.reg(0xF), 1); // every redrawn pixel was erased
    for py in 0..32 {
        for px in 0..64 {
            assert!(!c.pixel(px, py)); // the screen is as it started: clear
        }
    }
}

#[test]
fn clip_right_edge() {
    let mut c = Chip8::new();
    for r in 0..15 {
        assert_eq!(c.write_mem(0x300 + r, 0xFF), Ok(()));
    }
    assert_eq!(c.exec(0x603C, 0), Ok(())); // V0 = 60
    assert_eq!(c.exec(0x6100, 0), Ok(())); // V1 = 0
    assert_eq!(c.exec(0xA300, 0), Ok(()));
    assert_eq!(c.exec(0xD01F, 0), Ok(())); // 8x15 sprite at (60, 0)
    assert_eq!(c.reg(0xF), 0);
    for py in 0..32 {
        for px in 0..64 {
            let painted = px >= 60 && py < 15; // only columns 60..=63 survive
            assert_eq!(c.pixel(px, py), painted);
        }
    }
}

#[test]
fn clip_bottom_edge() {
    let mut c = Chip8::new();
    for r in 0..8 {
        assert_eq!(c.write_mem(0x300 + r, 0xFF), Ok(()));
    }
    assert_eq!(c.exec(0x6000, 0), Ok(())); // V0 = 0
    assert_eq!(c.exec(0x611C, 0), Ok(())); // V1 = 28
    assert_eq!(c.exec(0xA300, 0), Ok(()));
    assert_eq!(c.exec(0xD018, 0), Ok(())); // 8x8 sprite at (0, 28)
    for py in 0..32 {
        for px in 0..64 {
            let painted = px < 8 && py >= 28; // only rows 28..=31 survive
            assert_eq!(c.pixel(px, py), painted);
        }
    }
}

#[test]
fn draw_position_wraps_modulo_screen() {
    let mut c = Chip8::new();
    assert_eq!(c.write_mem(0x300, 0x80), Ok(())); // single top-left bit
    assert_eq!(c.exec(0x6040, 0), Ok(())); // V0 = 64 -> x wraps to 0
    assert_eq!(c.exec(0x6120, 0), Ok(())); // V1 = 32 -> y wraps to 0
    assert_eq!(c.exec(0xA300, 0), Ok(()));
    assert_eq!(c.exec(0xD011, 0), Ok(()));
    assert!(c.pixel(0, 0));
}

#[test]
fn draw_sprite_read_fault() {
    let mut c = Chip8::new();
    assert_eq!(c.exec(0xAFFF, 0), Ok(())); // IR = 0xFFF
    assert_eq!(c.exec(0x6000, 0), Ok(()));
    assert_eq!(c.exec(0x6100, 0), Ok(()));
    assert_eq!(c.exec(0xD012, 0), Err(Chip8Errors::AddressOutOfBounds));
    for py in 0..32 {
        for px in 0..64 {
            assert!(!c.pixel(px, py)); // the fault painted nothing
        }
    }
}

#[test]
fn clear_screen_opcode() {
    let mut c = Chip8::new();
    assert_eq!(c.exec(0xA050, 0), Ok(()));
    assert_eq!(c.exec(0xD015, 0), Ok(()));
    assert!(c.pixel(0, 0));
    assert_eq!(c.exec(0x00E0, 0), Ok(()));
    for py in 0..32 {
        for px in 0..64 {
            assert!(!c.pixel(px, py));
        }
    }
}
