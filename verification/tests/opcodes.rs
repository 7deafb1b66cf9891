use krhip8::chip8::{Chip8, Chip8Errors};

fn machine() -> Chip8 {
    Chip8::new()
}

#[test]
fn add_with_carry() {
    let mut c = machine();
    assert_eq!(c.exec(0x60C8, 0), Ok(())); // V0 = 200
    assert_eq!(c.exec(0x6164, 0), Ok(())); // V1 = 100
    assert_eq!(c.exec(0x8014, 0), Ok(())); // V0 += V1
    assert_eq!(c.reg(0), 44); // 300 mod 256
    assert_eq!(c.reg(0xF), 1);
}

#[test]
fn add_without_carry() {
    let mut c = machine();
    assert_eq!(c.exec(0x600A, 0), Ok(()));
    assert_eq!(c.exec(0x6114, 0), Ok(()));
    assert_eq!(c.exec(0x8014, 0), Ok(()));
    assert_eq!(c.reg(0), 30);
    assert_eq!(c.reg(0xF), 0);
}

#[test]
fn sub_no_borrow() {
    let mut c = machine();
    assert_eq!(c.exec(0x6064, 0), Ok(())); // V0 = 100
    assert_eq!(c.exec(0x611E, 0), Ok(())); // V1 = 30
    assert_eq!(c.exec(0x8015, 0), Ok(())); // V0 -= V1
    assert_eq!(c.reg(0), 70);
    assert_eq!(c.reg(0xF), 1); // no borrow: 100 >= 30
}

#[test]
fn sub_with_borrow() {
    let mut c = machine();
    assert_eq!(c.exec(0x601E, 0), Ok(())); // V0 = 30
    assert_eq!(c.exec(0x6164, 0), Ok(())); // V1 = 100
    assert_eq!(c.exec(0x8015, 0), Ok(()));
    assert_eq!(c.reg(0), 186); // (30 - 100) mod 256
    assert_eq!(c.reg(0xF), 0);
}

#[test]
fn sub_equal_operands() {
    let mut c = machine();
    assert_eq!(c.exec(0x6042, 0), Ok(()));
    assert_eq!(c.exec(0x6142, 0), Ok(()));
    assert_eq!(c.exec(0x8015, 0), Ok(()));
    assert_eq!(c.reg(0), 0);
    assert_eq!(c.reg(0xF), 1); // 0x42 >= 0x42
}

#[test]
fn sub_reversed() {
    let mut c = machine();
    assert_eq!(c.exec(0x601E, 0), Ok(())); // V0 = 30
    assert_eq!(c.exec(0x6164, 0), Ok(())); // V1 = 100
    assert_eq!(c.exec(0x8017, 0), Ok(())); // V0 = V1 - V0
    assert_eq!(c.reg(0), 70);
    assert_eq!(c.reg(0xF), 1); // 100 >= 30
}

#[test]
fn shift_right_lsb() {
    let mut c = machine();
    assert_eq!(c.exec(0x60B5, 0), Ok(())); // V0 = 0b10110101
    assert_eq!(c.exec(0x8016, 0), Ok(()));
    assert_eq!(c.reg(0xF), 1);
    assert_eq!(c.reg(0), 0x5A);
}

#[test]
fn shift_left_msb() {
    let mut c = machine();
    assert_eq!(c.exec(0x60B5, 0), Ok(())); // V0 = 0b10110101
    assert_eq!(c.exec(0x801E, 0), Ok(()));
    assert_eq!(c.reg(0xF), 1);
    assert_eq!(c.reg(0), 0x6A);
}

#[test]
fn logic_or_and_xor() {
    let mut c = machine();
    assert_eq!(c.exec(0x60F0, 0), Ok(()));
    assert_eq!(c.exec(0x613C, 0), Ok(()));
    assert_eq!(c.exec(0x8011, 0), Ok(())); // or
    assert_eq!(c.reg(0), 0xFC);
    assert_eq!(c.exec(0x60F0, 0), Ok(()));
    assert_eq!(c.exec(0x8012, 0), Ok(())); // and
    assert_eq!(c.reg(0), 0x30);
    assert_eq!(c.exec(0x60F0, 0), Ok(()));
    assert_eq!(c.exec(0x8013, 0), Ok(())); // xor
    assert_eq!(c.reg(0), 0xCC);
    assert_eq!(c.exec(0x8010, 0), Ok(())); // move
    assert_eq!(c.reg(0), 0x3C);
}

#[test]
fn load_add_immediate() {
    let mut c = machine();
    assert_eq!(c.exec(0x60FE, 0), Ok(()));
    assert_eq!(c.exec(0x7005, 0), Ok(())); // wrapping add immediate
    assert_eq!(c.reg(0), 3);
}

#[test]
fn jumps_and_skips() {
    let mut c = machine();
    assert_eq!(c.exec(0x1300, 0), Ok(()));
    assert_eq!(c.pc(), 0x300);
    assert_eq!(c.exec(0x6007, 0), Ok(()));
    assert_eq!(c.exec(0x3007, 0), Ok(())); // skip: V0 == 7
    assert_eq!(c.pc(), 0x302);
    assert_eq!(c.exec(0x3008, 0), Ok(())); // no skip
    assert_eq!(c.pc(), 0x302);
    assert_eq!(c.exec(0x4008, 0), Ok(())); // skip: V0 != 8
    assert_eq!(c.pc(), 0x304);
    assert_eq!(c.exec(0x6107, 0), Ok(()));
    assert_eq!(c.exec(0x5010, 0), Ok(())); // skip: V0 == V1
    assert_eq!(c.pc(), 0x306);
    assert_eq!(c.exec(0x9010, 0), Ok(())); // no skip: V0 == V1
    assert_eq!(c.pc(), 0x306);
    assert_eq!(c.exec(0xB300, 0), Ok(())); // PC = 0x300 + V0
    assert_eq!(c.pc(), 0x307);
}

#[test]
fn random_masks() {
    let mut c = machine();
    assert_eq!(c.exec(0xC0F0, 0xAB), Ok(()));
    assert_eq!(c.reg(0), 0xA0);
    assert_eq!(c.exec(0xC1FF, 0x5C), Ok(()));
    assert_eq!(c.reg(1), 0x5C);
    assert_eq!(c.exec(0xC200, 0x5C), Ok(()));
    assert_eq!(c.reg(2), 0);
}

#[test]
fn bcd_digits() {
    let mut c = machine();
    assert_eq!(c.exec(0x609C, 0), Ok(())); // V0 = 156
    assert_eq!(c.exec(0xA300, 0), Ok(())); // IR = 0x300
    assert_eq!(c.exec(0xF033, 0), Ok(()));
    assert_eq!(c.read_mem(0x300), Ok(1));
    assert_eq!(c.read_mem(0x301), Ok(5));
    assert_eq!(c.read_mem(0x302), Ok(6));
}

#[test]
fn store_registers() {
    let mut c = machine();
    assert_eq!(c.exec(0x600A, 0), Ok(())); // 10
    assert_eq!(c.exec(0x6114, 0), Ok(())); // 20
    assert_eq!(c.exec(0x621E, 0), Ok(())); // 30
    assert_eq!(c.exec(0x6328, 0), Ok(())); // 40
    assert_eq!(c.exec(0xA300, 0), Ok(()));
    assert_eq!(c.exec(0xF355, 0), Ok(()));
    assert_eq!(c.read_mem(0x300), Ok(10));
    assert_eq!(c.read_mem(0x301), Ok(20));
    assert_eq!(c.read_mem(0x302), Ok(30));
    assert_eq!(c.read_mem(0x303), Ok(40));
    assert_eq!(c.read_mem(0x304), Ok(0)); // one past the copied range
}

#[test]
fn load_registers() {
    let mut c = machine();
    assert_eq!(c.write_mem(0x300, 11), Ok(()));
    assert_eq!(c.write_mem(0x301, 22), Ok(()));
    assert_eq!(c.write_mem(0x302, 33), Ok(()));
    assert_eq!(c.exec(0xA300, 0), Ok(()));
    assert_eq!(c.exec(0xF265, 0), Ok(()));
    assert_eq!(c.reg(0), 11);
    assert_eq!(c.reg(1), 22);
    assert_eq!(c.reg(2), 33);
    assert_eq!(c.reg(3), 0); // untouched
}

#[test]
fn index_register_ops() {
    let mut c = machine();
    assert_eq!(c.exec(0xA123, 0), Ok(()));
    assert_eq!(c.ir(), 0x123);
    assert_eq!(c.exec(0x60FF, 0), Ok(()));
    assert_eq!(c.exec(0xF01E, 0), Ok(())); // IR += V0
    assert_eq!(c.ir(), 0x222);
    assert_eq!(c.exec(0x610A, 0), Ok(()));
    assert_eq!(c.exec(0xF129, 0), Ok(())); // IR = font glyph of V1
    assert_eq!(c.ir(), 0x50 + 5 * 0xA);
}

#[test]
fn index_register_wraps() {
    let mut c = machine();
    assert_eq!(c.exec(0xAFFF, 0), Ok(()));
    assert_eq!(c.exec(0x60FF, 0), Ok(()));
    for _ in 0..257 {
        assert_eq!(c.exec(0xF01E, 0), Ok(()));
    }
    // 0xFFF + 257 * 0xFF wraps modulo 0x10000
    assert_eq!(c.ir(), ((0xFFFu32 + 257 * 0xFF) % 0x10000) as u16);
}

#[test]
fn timer_opcodes() {
    let mut c = machine();
    assert_eq!(c.exec(0x6030, 0), Ok(()));
    assert_eq!(c.exec(0xF015, 0), Ok(())); // delay = V0
    assert_eq!(c.delay_timer(), 0x30);
    assert_eq!(c.exec(0xF018, 0), Ok(())); // sound = V0
    assert_eq!(c.sound_timer(), 0x30);
    assert_eq!(c.exec(0xF107, 0), Ok(())); // V1 = delay
    assert_eq!(c.reg(1), 0x30);
}

#[test]
fn undefined_instructions() {
    let mut c = machine();
    assert_eq!(c.exec(0x0000, 0), Err(Chip8Errors::UndefinedInstruction));
    assert_eq!(c.exec(0x00E1, 0), Err(Chip8Errors::UndefinedInstruction));
    assert_eq!(c.exec(0x8008, 0), Err(Chip8Errors::UndefinedInstruction));
    assert_eq!(c.exec(0x800F, 0), Err(Chip8Errors::UndefinedInstruction));
    assert_eq!(c.exec(0xE000, 0), Err(Chip8Errors::UndefinedInstruction));
    assert_eq!(c.exec(0xF0FF, 0), Err(Chip8Errors::UndefinedInstruction));
}

#[test]
fn memory_faults() {
    let mut c = machine();
    assert_eq!(c.exec(0xAFFE, 0), Ok(())); // IR = 0xFFE
    assert_eq!(c.exec(0xF033, 0), Err(Chip8Errors::AddressOutOfBounds));
    assert_eq!(c.exec(0xAFFF, 0), Ok(()));
    assert_eq!(c.exec(0x6101, 0), Ok(()));
    assert_eq!(c.exec(0xF155, 0), Err(Chip8Errors::AddressOutOfBounds));
    assert_eq!(c.exec(0xF165, 0), Err(Chip8Errors::AddressOutOfBounds));
    // the fault leaves memory and registers alone
    assert_eq!(c.read_mem(0xFFF), Ok(0));
    assert_eq!(c.reg(1), 1);
}
