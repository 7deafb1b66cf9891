//! The interpreter: machine state, per-opcode semantics, the sprite-draw
//! algorithm, the call-stack discipline, and the timer policy. The whole
//! observable behaviour of one executed instruction is given by the spec
//! function `step`, and of one fetch-decode-execute cycle by `spec_cycle`.
use vstd::prelude::*;
use vstd::math::min;
use crate::callstack::{stack_contents, stack_new, stack_pop, stack_push};
use crate::decode::{
    bg_id, end_id, kk, n, nnn, two_end_id, x, y, index,
    spec_bg_id, spec_end_id, spec_index, spec_kk, spec_n, spec_nnn, spec_two_end_id, spec_x,
    spec_y,
};
use crate::ram::{mem_init, Ram, RamErrors};
use crate::Restart;

verus! {

/// The faults an instruction can raise; all four end the current cycle and
/// are reported to the caller, which owns the termination policy.
#[derive(Debug, Clone, Copy, PartialEq, Eq, Structural)]
pub enum Chip8Errors {
    UndefinedInstruction,
    StackOverflow,
    StackUnderflow,
    AddressOutOfBounds,
}

/// The mathematical model of the whole machine: every contract of the
/// interpreter speaks of values of this type.
#[verifier::ext_equal]
pub struct State {
    pub pc: u16,
    pub ir: u16,
    pub mem: Seq<u8>,
    pub v: Seq<u8>,
    pub disp: Seq<bool>,
    pub stack: Seq<u16>,
    pub keys: Seq<bool>,
    pub delay: u8,
    pub sound: u8,
    /// `Some(x)` while a blocking key-wait holds the machine: the key that
    /// arrives goes into register `x`.
    pub waiting: Option<u8>,
}

/// Validity of a machine state: the fixed sizes of every component, the
/// call-stack capacity, and a register index for a pending key-wait.
pub open spec fn st_wf(s: State) -> bool {
    &&& s.mem.len() == 4096
    &&& s.v.len() == 16
    &&& s.disp.len() == 2048
    &&& s.keys.len() == 16
    &&& s.stack.len() <= 16
    &&& (s.waiting matches Some(xi) ==> xi < 16)
}

/// 16-bit wrap-around.
pub open spec fn wrap16(a: int) -> u16 {
    (a % 0x10000) as u16
}

/// 8-bit wrap-around.
pub open spec fn wrap8(a: int) -> u8 {
    (a % 0x100) as u8
}

/// One timer step: decrement while above zero, floor at zero.
pub open spec fn tick(t: u8) -> u8 {
    if t > 0 { (t - 1) as u8 } else { 0 }
}

/// Bit `i` of byte `b`, bit 0 the least significant.
pub open spec fn bit_of(b: u8, i: u8) -> bool
    recommends
        i < 8,
{
    (b >> i) & 1 == 1
}


/// A key value is down when it is in range and its flag is set; values
/// outside the 16-key pad never read as down.
pub open spec fn key_down_spec(s: State, k: u8) -> bool {
    k < 16 && s.keys[k as int]
}

/// Whether target pixel `i` (row-major) receives a set sprite bit, counting
/// whole sprite rows below `r`, and on row `r` itself only columns below
/// `c`. Rows from `ypos` down and columns from `xpos` right; columns past
/// the right edge fall outside pixel space and are clipped by construction.
pub open spec fn hits_before(
    mem: Seq<u8>,
    ir: u16,
    xpos: int,
    ypos: int,
    r: int,
    c: int,
    i: int,
) -> bool {
    let px = i % 64;
    let py = i / 64;
    let rr = py - ypos;
    let cc = px - xpos;
    &&& 0 <= cc < 8
    &&& 0 <= rr
    &&& (rr < r || (rr == r && cc < c))
    &&& bit_of(mem[ir + rr], (7 - cc) as u8)
}

/// Whether target pixel `i` receives a set sprite bit from any of the
/// `rows` visible sprite rows.
pub open spec fn draw_hits(mem: Seq<u8>, ir: u16, xpos: int, ypos: int, rows: int, i: int) -> bool {
    hits_before(mem, ir, xpos, ypos, rows, 0, i)
}

/// The sprite-draw opcode on registers `xs`, `ys` with height `nn`: each
/// visible set sprite bit flips its target pixel; VF reports whether some
/// set pixel was erased; rows below the bottom edge are clipped. Reading a
/// sprite byte past 0xFFF is a fault that changes nothing.
pub open spec fn draw_result(pre: State, xs: int, ys: int, nn: int) -> (State, Result<
    (),
    Chip8Errors,
>) {
    let xpos = (pre.v[xs] as int) % 64;
    let ypos = (pre.v[ys] as int) % 32;
    let rows = min(nn, 32 - ypos);
    if rows > 0 && pre.ir + rows - 1 > 0xFFF {
        (pre, Err(Chip8Errors::AddressOutOfBounds))
    } else {
        let coll = exists|i: int|
            0 <= i < 2048 && pre.disp[i] && draw_hits(pre.mem, pre.ir, xpos, ypos, rows, i);
        (
            State {
                disp: Seq::new(
                    2048,
                    |i: int| pre.disp[i] != draw_hits(pre.mem, pre.ir, xpos, ypos, rows, i),
                ),
                v: pre.v.update(0xF, if coll { 1u8 } else { 0u8 }),
                ..pre
            },
            Ok(()),
        )
    }
}

/// Opcodes 00E0 (clear), 00EE (return).
pub open spec fn step0(pre: State, uc: u16) -> (State, Result<(), Chip8Errors>) {
    if spec_two_end_id(uc) == 0xE0 {
        (State { disp: Seq::new(2048, |i: int| false), ..pre }, Ok(()))
    } else if spec_two_end_id(uc) == 0xEE {
        if pre.stack.len() == 0 {
            (pre, Err(Chip8Errors::StackUnderflow))
        } else {
            (State { pc: pre.stack.last(), stack: pre.stack.drop_last(), ..pre }, Ok(()))
        }
    } else {
        (pre, Err(Chip8Errors::UndefinedInstruction))
    }
}

/// The arithmetic and logic family 8xy_: moves, bit operations, add with
/// carry, subtractions with borrow flag, and the two shifts. VF is written
/// last, so it wins when `x` is itself 0xF.
pub open spec fn step8(pre: State, uc: u16) -> (State, Result<(), Chip8Errors>) {
    let xi = spec_x(uc) as int;
    let yi = spec_y(uc) as int;
    let a = pre.v[xi];
    let b = pre.v[yi];
    if spec_end_id(uc) == 0x0 {
        (State { v: pre.v.update(xi, b), ..pre }, Ok(()))
    } else if spec_end_id(uc) == 0x1 {
        (State { v: pre.v.update(xi, a | b), ..pre }, Ok(()))
    } else if spec_end_id(uc) == 0x2 {
        (State { v: pre.v.update(xi, a & b), ..pre }, Ok(()))
    } else if spec_end_id(uc) == 0x3 {
        (State { v: pre.v.update(xi, a ^ b), ..pre }, Ok(()))
    } else if spec_end_id(uc) == 0x4 {
        (
            State {
                v: pre.v.update(xi, wrap8(a + b)).update(0xF, if a + b > 255 { 1u8 } else { 0u8 }),
                ..pre
            },
            Ok(()),
        )
    } else if spec_end_id(uc) == 0x5 {
        (
            State {
                v: pre.v.update(xi, wrap8(a - b)).update(0xF, if a >= b { 1u8 } else { 0u8 }),
                ..pre
            },
            Ok(()),
        )
    } else if spec_end_id(uc) == 0x6 {
        (
            State { v: pre.v.update(xi, (a / 2) as u8).update(0xF, (a % 2) as u8), ..pre },
            Ok(()),
        )
    } else if spec_end_id(uc) == 0x7 {
        (
            State {
                v: pre.v.update(xi, wrap8(b - a)).update(0xF, if b >= a { 1u8 } else { 0u8 }),
                ..pre
            },
            Ok(()),
        )
    } else if spec_end_id(uc) == 0xE {
        (
            State {
                v: pre.v.update(xi, wrap8(a * 2)).update(0xF, if a >= 128 { 1u8 } else { 0u8 }),
                ..pre
            },
            Ok(()),
        )
    } else {
        (pre, Err(Chip8Errors::UndefinedInstruction))
    }
}

/// Opcodes Ex9E / ExA1: skip on key down / key up.
pub open spec fn stepe(pre: State, uc: u16) -> (State, Result<(), Chip8Errors>) {
    let vx = pre.v[spec_x(uc) as int];
    if spec_two_end_id(uc) == 0x9E {
        (
            State { pc: if key_down_spec(pre, vx) { wrap16(pre.pc + 2) } else { pre.pc }, ..pre },
            Ok(()),
        )
    } else if spec_two_end_id(uc) == 0xA1 {
        (
            State { pc: if !key_down_spec(pre, vx) { wrap16(pre.pc + 2) } else { pre.pc }, ..pre },
            Ok(()),
        )
    } else {
        (pre, Err(Chip8Errors::UndefinedInstruction))
    }
}

/// The Fx__ family: timers, the blocking key-wait, index arithmetic, font
/// addressing, decimal decomposition, and register save / restore. The
/// memory-touching members are all-or-nothing: a byte past 0xFFF is a fault
/// that changes nothing.
pub open spec fn stepf(pre: State, uc: u16) -> (State, Result<(), Chip8Errors>) {
    let xi = spec_x(uc) as int;
    let vx = pre.v[xi];
    let t = spec_two_end_id(uc);
    if t == 0x07 {
        (State { v: pre.v.update(xi, pre.delay), ..pre }, Ok(()))
    } else if t == 0x0A {
        (State { waiting: Some(spec_x(uc) as u8), ..pre }, Ok(()))
    } else if t == 0x15 {
        (State { delay: vx, ..pre }, Ok(()))
    } else if t == 0x18 {
        (State { sound: vx, ..pre }, Ok(()))
    } else if t == 0x1E {
        (State { ir: wrap16(pre.ir + vx), ..pre }, Ok(()))
    } else if t == 0x29 {
        (State { ir: (0x50 + 5 * vx) as u16, ..pre }, Ok(()))
    } else if t == 0x33 {
        if pre.ir + 2 > 0xFFF {
            (pre, Err(Chip8Errors::AddressOutOfBounds))
        } else {
            (
                State {
                    mem: pre.mem.update(pre.ir as int, (vx / 100) as u8).update(
                        pre.ir + 1,
                        ((vx / 10) % 10) as u8,
                    ).update(pre.ir + 2, (vx % 10) as u8),
                    ..pre
                },
                Ok(()),
            )
        }
    } else if t == 0x55 {
        if pre.ir + xi > 0xFFF {
            (pre, Err(Chip8Errors::AddressOutOfBounds))
        } else {
            (
                State {
                    mem: Seq::new(
                        4096,
                        |i: int| if pre.ir <= i <= pre.ir + xi { pre.v[i - pre.ir] } else { pre.mem[i] },
                    ),
                    ..pre
                },
                Ok(()),
            )
        }
    } else if t == 0x65 {
        if pre.ir + xi > 0xFFF {
            (pre, Err(Chip8Errors::AddressOutOfBounds))
        } else {
            (
                State {
                    v: Seq::new(
                        16,
                        |i: int| if 0 <= i <= xi { pre.mem[pre.ir + i] } else { pre.v[i] },
                    ),
                    ..pre
                },
                Ok(()),
            )
        }
    } else {
        (pre, Err(Chip8Errors::UndefinedInstruction))
    }
}

/// The whole effect of executing one instruction word `uc` on state `pre`;
/// `rb` is the random byte that opcode Cxkk combines with its mask. This is
/// the authoritative opcode table: `exec` is proved against it.
pub open spec fn step(pre: State, uc: u16, rb: u8) -> (State, Result<(), Chip8Errors>) {
    let g = spec_bg_id(uc);
    let xi = spec_x(uc) as int;
    let yi = spec_y(uc) as int;
    let vx = pre.v[xi];
    let vy = pre.v[yi];
    let kkv = spec_kk(uc);
    if g == 0x0 {
        step0(pre, uc)
    } else if g == 0x1 {
        (State { pc: spec_nnn(uc), ..pre }, Ok(()))
    } else if g == 0x2 {
        if pre.stack.len() >= 16 {
            (pre, Err(Chip8Errors::StackOverflow))
        } else {
            (State { pc: spec_nnn(uc), stack: pre.stack.push(pre.pc), ..pre }, Ok(()))
        }
    } else if g == 0x3 {
        (State { pc: if vx == kkv { wrap16(pre.pc + 2) } else { pre.pc }, ..pre }, Ok(()))
    } else if g == 0x4 {
        (State { pc: if vx != kkv { wrap16(pre.pc + 2) } else { pre.pc }, ..pre }, Ok(()))
    } else if g == 0x5 {
        (State { pc: if vx == vy { wrap16(pre.pc + 2) } else { pre.pc }, ..pre }, Ok(()))
    } else if g == 0x6 {
        (State { v: pre.v.update(xi, kkv), ..pre }, Ok(()))
    } else if g == 0x7 {
        (State { v: pre.v.update(xi, wrap8(vx + kkv)), ..pre }, Ok(()))
    } else if g == 0x8 {
        step8(pre, uc)
    } else if g == 0x9 {
        (State { pc: if vx != vy { wrap16(pre.pc + 2) } else { pre.pc }, ..pre }, Ok(()))
    } else if g == 0xA {
        (State { ir: spec_nnn(uc), ..pre }, Ok(()))
    } else if g == 0xB {
        (State { pc: (spec_nnn(uc) + pre.v[0]) as u16, ..pre }, Ok(()))
    } else if g == 0xC {
        (State { v: pre.v.update(xi, rb & kkv), ..pre }, Ok(()))
    } else if g == 0xD {
        draw_result(pre, xi, yi, spec_n(uc) as int)
    } else if g == 0xE {
        stepe(pre, uc)
    } else {
        stepf(pre, uc)
    }
}

/// One whole cycle: nothing happens while a key-wait is pending; otherwise
/// the two instruction bytes are fetched at PC (a fetch past 0xFFF is a
/// fault), PC advances by two, both timers tick, and the word executes.
pub open spec fn fetched(pre: State) -> u16
    recommends
        pre.pc + 1 <= 0xFFF,
{
    (pre.mem[pre.pc as int] * 256 + pre.mem[pre.pc + 1]) as u16
}

pub open spec fn spec_cycle(pre: State, rb: u8) -> (State, Result<(), Chip8Errors>) {
    if pre.waiting is Some {
        (pre, Ok(()))
    } else if pre.pc + 1 > 0xFFF {
        (pre, Err(Chip8Errors::AddressOutOfBounds))
    } else {
        let w = fetched(pre);
        let mid = State {
            pc: wrap16(pre.pc + 2),
            delay: tick(pre.delay),
            sound: tick(pre.sound),
            ..pre
        };
        step(mid, w, rb)
    }
}

pub struct Chip8 {
    pc: u16,
    ir: u16,
    ram: Ram,
    v: Vec<u8>,
    display: Vec<bool>,
    stack: stack_stack::Stack<u16, 16>,
    keys: Vec<bool>,
    delay_timer: u8,
    sound_timer: u8,
    waiting: Option<u8>,
}

impl View for Chip8 {
    type V = State;

    closed spec fn view(&self) -> State {
        State {
            pc: self.pc,
            ir: self.ir,
            mem: self.ram@,
            v: self.v@,
            disp: self.display@,
            stack: stack_contents(self.stack),
            keys: self.keys@,
            delay: self.delay_timer,
            sound: self.sound_timer,
            waiting: self.waiting,
        }
    }
}

impl Chip8 {
    pub open spec fn wf(self) -> bool {
        st_wf(self@)
    }

    /// A fresh machine: PC at 0x200, font in memory, everything else clear.
    pub fn new() -> (r: Chip8)
        ensures
            r.wf(),
            r@ == (State {
                pc: 0x200,
                ir: 0,
                mem: mem_init(),
                v: Seq::new(16, |i: int| 0u8),
                disp: Seq::new(2048, |i: int| false),
                stack: Seq::<u16>::empty(),
                keys: Seq::new(16, |i: int| false),
                delay: 0,
                sound: 0,
                waiting: None,
            }),
    {
        let mut v: Vec<u8> = Vec::new();
        let mut i: usize = 0;
        while i < 16
            invariant
                i <= 16,
                v@ =~= Seq::new(i as nat, |j: int| 0u8),
            decreases 16 - i,
        {
            v.push(0);
            i += 1;
        }
        let mut keys: Vec<bool> = Vec::new();
        let mut j: usize = 0;
        while j < 16
            invariant
                j <= 16,
                keys@ =~= Seq::new(j as nat, |k: int| false),
            decreases 16 - j,
        {
            keys.push(false);
            j += 1;
        }
        let mut display: Vec<bool> = Vec::new();
        let mut d: usize = 0;
        while d < 2048
            invariant
                d <= 2048,
                display@ =~= Seq::new(d as nat, |k: int| false),
            decreases 2048 - d,
        {
            display.push(false);
            d += 1;
        }
        let r = Chip8 {
            pc: 0x200,
            ir: 0,
            ram: Ram::new(),
            v,
            display,
            stack: stack_new(),
            keys,
            delay_timer: 0,
            sound_timer: 0,
            waiting: None,
        };
        proof {
            assert(r@ =~= (State {
                pc: 0x200,
                ir: 0,
                mem: mem_init(),
                v: Seq::new(16, |i: int| 0u8),
                disp: Seq::new(2048, |i: int| false),
                stack: Seq::<u16>::empty(),
                keys: Seq::new(16, |i: int| false),
                delay: 0,
                sound: 0,
                waiting: None,
            }));
        }
        r
    }
}

impl Default for Chip8 {
    fn default() -> (r: Chip8)
        ensures
            r.wf(),
            r@.pc == 0x200,
            r@.mem == mem_init(),
            r@.stack == Seq::<u16>::empty(),
            r@.waiting == None::<u8>,
    {
        Chip8::new()
    }
}


/// Pixel (px, py) sits at row-major index py*64+px, and that index maps
/// back to the same coordinates.
proof fn lemma_pixel_index(px: int, py: int)
    requires
        0 <= px < 64,
        0 <= py < 32,
    ensures
        0 <= py * 64 + px < 2048,
        (py * 64 + px) % 64 == px,
        (py * 64 + px) / 64 == py,
{
    vstd::arithmetic::div_mod::lemma_fundamental_div_mod_converse(py * 64 + px, 64, py, px);
}

/// Row-major index `i` decomposes into its column `i % 64` and row `i / 64`.
proof fn lemma_index_pixel(i: int)
    requires
        0 <= i < 2048,
    ensures
        i == (i / 64) * 64 + (i % 64),
        0 <= i % 64 < 64,
        0 <= i / 64 < 32,
{
    vstd::arithmetic::div_mod::lemma_fundamental_div_mod(i, 64);
}

impl Chip8 {
    /// Sets every pixel of the display to clear.
    fn clear_display(&mut self)
        requires
            old(self).wf(),
        ensures
            final(self).wf(),
            final(self)@ == (State { disp: Seq::new(2048, |i: int| false), ..old(self)@ }),
    {
        let ghost pre = self@;
        let mut i: usize = 0;
        while i < 2048
            invariant
                i <= 2048,
                self@ == (State { disp: self@.disp, ..pre }),
                self@.disp.len() == 2048,
                forall|j: int| 0 <= j < i ==> self@.disp[j] == false,
            decreases 2048 - i,
        {
            self.display.set(i, false);
            i += 1;
        }
        proof {
            assert(self@ =~= (State { disp: Seq::new(2048, |i: int| false), ..pre }));
        }
    }

    /// Opcode Dxyn: XOR-draws a sprite of `spheight` rows, read from memory
    /// at IR, at (Vx mod 64, Vy mod 32); a set sprite bit flips its target
    /// pixel, VF reports whether any set pixel was erased, and rows or
    /// columns past the screen edge are clipped.
    fn draw_sprite(&mut self, xs: usize, ys: usize, spheight: u16) -> (r: Result<(), Chip8Errors>)
        requires
            old(self).wf(),
            xs < 16,
            ys < 16,
            spheight < 16,
        ensures
            final(self).wf(),
            final(self)@ == draw_result(old(self)@, xs as int, ys as int, spheight as int).0,
            r == draw_result(old(self)@, xs as int, ys as int, spheight as int).1,
    {
        let ghost pre = self@;
        let xpos = (self.v[xs] % 64) as usize;
        let ypos = (self.v[ys] % 32) as usize;
        let rows = if spheight as usize <= 32 - ypos { spheight as usize } else { 32 - ypos };
        proof {
            assert(rows == min(spheight as int, 32 - ypos));
        }
        if rows > 0 && self.ir as usize > 0xFFF - (rows - 1) {
            return Err(Chip8Errors::AddressOutOfBounds);
        }
        let cols = if xpos <= 56 { 8 } else { 64 - xpos };
        proof {
            assert(cols == min(8, 64 - xpos));
        }
        let ghost xp = xpos as int;
        let ghost yp = ypos as int;
        let ghost rw = rows as int;
        self.v.set(0xF, 0);
        proof {
            assert(self@.disp =~= Seq::new(
                2048,
                |i: int| pre.disp[i] != hits_before(pre.mem, pre.ir, xp, yp, 0, 0, i),
            ));
        }
        let mut row: usize = 0;
        while row < rows
            invariant
                row <= rows,
                st_wf(pre),
                xs < 16,
                xp == xpos,
                yp == ypos,
                rw == rows,
                xpos < 64,
                ypos < 32,
                rows <= 32 - ypos,
                rows <= 16,
                rows > 0 ==> pre.ir + rows - 1 <= 0xFFF,
                cols == min(8, 64 - xp),
                self@ == (State { disp: self@.disp, v: self@.v, ..pre }),
                self@.disp.len() == 2048,
                self@.v.len() == 16,
                self@.disp =~= Seq::new(
                    2048,
                    |i: int| pre.disp[i] != hits_before(pre.mem, pre.ir, xp, yp, row as int, 0, i),
                ),
                self@.v == pre.v.update(
                    0xF,
                    if exists|i: int|
                        0 <= i < 2048 && pre.disp[i] && hits_before(
                            pre.mem,
                            pre.ir,
                            xp,
                            yp,
                            row as int,
                            0,
                            i,
                        ) {
                        1u8
                    } else {
                        0u8
                    },
                ),
            decreases rows - row,
        {
            let byte = self.ram.byte_at(self.ir as usize + row);
            let mut col: usize = 0;
            while col < cols
                invariant
                    col <= cols,
                    row < rows,
                    st_wf(pre),
                    xs < 16,
                    xp == xpos,
                    yp == ypos,
                    rw == rows,
                    xpos < 64,
                    ypos < 32,
                    rows <= 32 - ypos,
                    rows <= 16,
                    pre.ir + rows - 1 <= 0xFFF,
                    cols == min(8, 64 - xp),
                    byte == pre.mem[pre.ir + row],
                    self@ == (State { disp: self@.disp, v: self@.v, ..pre }),
                    self@.disp.len() == 2048,
                    self@.v.len() == 16,
                    self@.disp =~= Seq::new(
                        2048,
                        |i: int| pre.disp[i] != hits_before(
                            pre.mem,
                            pre.ir,
                            xp,
                            yp,
                            row as int,
                            col as int,
                            i,
                        ),
                    ),
                    self@.v == pre.v.update(
                        0xF,
                        if exists|i: int|
                            0 <= i < 2048 && pre.disp[i] && hits_before(
                                pre.mem,
                                pre.ir,
                                xp,
                                yp,
                                row as int,
                                col as int,
                                i,
                            ) {
                            1u8
                        } else {
                            0u8
                        },
                    ),
                decreases cols - col,
            {
                let sh: u8 = (7 - col) as u8;
                let px = xpos + col;
                let py = ypos + row;
                let idx = index(px, py);
                proof {
                    lemma_pixel_index(px as int, py as int);
                }
                if (byte >> sh) & 1 == 1 {
                    proof {
                        assert(bit_of(pre.mem[pre.ir + row], (7 - col) as u8));
                        // the current pixel has not been touched yet
                        assert(!hits_before(pre.mem, pre.ir, xp, yp, row as int, col as int, idx as int));
                        assert(self@.disp[idx as int] == pre.disp[idx as int]);
                    }
                    if self.display[idx] {
                        self.v.set(0xF, 1);
                        self.display.set(idx, false);
                    } else {
                        self.display.set(idx, true);
                    }
                    proof {
                        assert forall|i: int| 0 <= i < 2048 && i != idx implies #[trigger] hits_before(
                            pre.mem, pre.ir, xp, yp, row as int, col as int + 1, i,
                        ) == hits_before(pre.mem, pre.ir, xp, yp, row as int, col as int, i) by {
                            lemma_index_pixel(i);
                            if hits_before(pre.mem, pre.ir, xp, yp, row as int, col as int + 1, i)
                                && !hits_before(pre.mem, pre.ir, xp, yp, row as int, col as int, i) {
                                assert(i % 64 - xp == col as int && i / 64 - yp == row as int);
                                assert(i == idx);
                            }
                        }
                        assert(hits_before(pre.mem, pre.ir, xp, yp, row as int, col as int + 1, idx as int));
                        assert(self@.disp =~= Seq::new(
                            2048,
                            |i: int| pre.disp[i] != hits_before(
                                pre.mem, pre.ir, xp, yp, row as int, col as int + 1, i,
                            ),
                        ));
                        // collision flag
                        if pre.disp[idx as int] {
                            assert(exists|i: int|
                                0 <= i < 2048 && pre.disp[i] && #[trigger] hits_before(
                                    pre.mem, pre.ir, xp, yp, row as int, col as int + 1, i,
                                )) by {
                                assert(pre.disp[idx as int] && hits_before(
                                    pre.mem, pre.ir, xp, yp, row as int, col as int + 1, idx as int,
                                ));
                            }
                            assert(self@.v == pre.v.update(0xF, 1u8));
                        } else {
                            if exists|i: int|
                                0 <= i < 2048 && pre.disp[i] && #[trigger] hits_before(
                                    pre.mem, pre.ir, xp, yp, row as int, col as int + 1, i,
                                ) {
                                let wi = choose|i: int|
                                    0 <= i < 2048 && pre.disp[i] && #[trigger] hits_before(
                                        pre.mem, pre.ir, xp, yp, row as int, col as int + 1, i,
                                    );
                                assert(wi != idx);
                                assert(hits_before(pre.mem, pre.ir, xp, yp, row as int, col as int, wi));
                            }
                        }
                        assert(self@.v == pre.v.update(
                            0xF,
                            if exists|i: int| 0 <= i < 2048 && pre.disp[i] && hits_before(
                                pre.mem, pre.ir, xp, yp, row as int, col as int + 1, i,
                            ) { 1u8 } else { 0u8 },
                        ));
                    }
                } else {
                    proof {
                        assert(!bit_of(pre.mem[pre.ir + row], (7 - col) as u8));
                        assert forall|i: int| 0 <= i < 2048 implies #[trigger] hits_before(
                            pre.mem, pre.ir, xp, yp, row as int, col as int + 1, i,
                        ) == hits_before(pre.mem, pre.ir, xp, yp, row as int, col as int, i) by {
                            lemma_index_pixel(i);
                            if hits_before(pre.mem, pre.ir, xp, yp, row as int, col as int + 1, i)
                                && !hits_before(pre.mem, pre.ir, xp, yp, row as int, col as int, i) {
                                assert(i % 64 - xp == col as int && i / 64 - yp == row as int);
                                assert(i == idx);
                                assert(bit_of(pre.mem[pre.ir + row], (7 - col) as u8));
                            }
                        }
                        assert(self@.disp =~= Seq::new(
                            2048,
                            |i: int| pre.disp[i] != hits_before(
                                pre.mem, pre.ir, xp, yp, row as int, col as int + 1, i,
                            ),
                        ));
                    }
                }
                col += 1;
            }
            proof {
                // columns past `cols` lie off the right edge, so finishing
                // the row at `cols` finishes it outright
                assert forall|i: int| 0 <= i < 2048 implies #[trigger] hits_before(
                    pre.mem, pre.ir, xp, yp, row as int + 1, 0, i,
                ) == hits_before(pre.mem, pre.ir, xp, yp, row as int, cols as int, i) by {
                    lemma_index_pixel(i);
                }
                assert(self@.disp =~= Seq::new(
                    2048,
                    |i: int| pre.disp[i] != hits_before(pre.mem, pre.ir, xp, yp, row as int + 1, 0, i),
                ));
                if exists|i: int| 0 <= i < 2048 && pre.disp[i] && #[trigger] hits_before(
                    pre.mem, pre.ir, xp, yp, row as int + 1, 0, i,
                ) {
                    let wi = choose|i: int|
                        0 <= i < 2048 && pre.disp[i] && #[trigger] hits_before(
                            pre.mem, pre.ir, xp, yp, row as int + 1, 0, i,
                        );
                    assert(hits_before(pre.mem, pre.ir, xp, yp, row as int, cols as int, wi));
                }
                if exists|i: int| 0 <= i < 2048 && pre.disp[i] && #[trigger] hits_before(
                    pre.mem, pre.ir, xp, yp, row as int, cols as int, i,
                ) {
                    let wi = choose|i: int|
                        0 <= i < 2048 && pre.disp[i] && #[trigger] hits_before(
                            pre.mem, pre.ir, xp, yp, row as int, cols as int, i,
                        );
                    assert(hits_before(pre.mem, pre.ir, xp, yp, row as int + 1, 0, wi));
                }
                assert(self@.v == pre.v.update(
                    0xF,
                    if exists|i: int| 0 <= i < 2048 && pre.disp[i] && #[trigger] hits_before(
                        pre.mem, pre.ir, xp, yp, row as int + 1, 0, i,
                    ) { 1u8 } else { 0u8 },
                ));
            }
            row += 1;
        }
        proof {
            assert(forall|i: int| 0 <= i < 2048 ==> hits_before(pre.mem, pre.ir, xp, yp, rw, 0, i)
                == draw_hits(pre.mem, pre.ir, xp, yp, rw, i));
            assert(self@ =~= draw_result(pre, xs as int, ys as int, spheight as int).0);
        }
        Ok(())
    }
}

impl Chip8 {
    /// Executes one already-fetched instruction word; `rb` is the random
    /// byte that opcode Cxkk masks. The whole effect, including every
    /// fault, is the one `step` gives.
    #[verifier::rlimit(100)]
    pub fn exec(&mut self, uc: u16, rb: u8) -> (r: Result<(), Chip8Errors>)
        requires
            old(self).wf(),
            old(self)@.waiting is None,
        ensures
            final(self).wf(),
            final(self)@ == step(old(self)@, uc, rb).0,
            r == step(old(self)@, uc, rb).1,
    {
        let ghost pre = self@;
        let g = bg_id(uc);
        let xi = x(uc);
        let yi = y(uc);
        if g == 0x0 {
            let t = two_end_id(uc);
            if t == 0xE0 {
                self.clear_display();
                Ok(())
            } else if t == 0xEE {
                match stack_pop(&mut self.stack) {
                    Some(addr) => {
                        self.pc = addr;
                        Ok(())
                    },
                    None => Err(Chip8Errors::StackUnderflow),
                }
            } else {
                Err(Chip8Errors::UndefinedInstruction)
            }
        } else if g == 0x1 {
            self.pc = nnn(uc);
            Ok(())
        } else if g == 0x2 {
            match stack_push(&mut self.stack, self.pc) {
                Ok(()) => {
                    self.pc = nnn(uc);
                    Ok(())
                },
                Err(_) => Err(Chip8Errors::StackOverflow),
            }
        } else if g == 0x3 {
            if self.v[xi] == kk(uc) {
                self.pc = self.pc.wrapping_add(2);
            }
            Ok(())
        } else if g == 0x4 {
            if self.v[xi] != kk(uc) {
                self.pc = self.pc.wrapping_add(2);
            }
            Ok(())
        } else if g == 0x5 {
            if self.v[xi] == self.v[yi] {
                self.pc = self.pc.wrapping_add(2);
            }
            Ok(())
        } else if g == 0x6 {
            self.v.set(xi, kk(uc));
            Ok(())
        } else if g == 0x7 {
            let a = self.v[xi];
            self.v.set(xi, a.wrapping_add(kk(uc)));
            Ok(())
        } else if g == 0x8 {
            let e = end_id(uc);
            let a = self.v[xi];
            let b = self.v[yi];
            if e == 0x0 {
                self.v.set(xi, b);
                Ok(())
            } else if e == 0x1 {
                self.v.set(xi, a | b);
                Ok(())
            } else if e == 0x2 {
                self.v.set(xi, a & b);
                Ok(())
            } else if e == 0x3 {
                self.v.set(xi, a ^ b);
                Ok(())
            } else if e == 0x4 {
                let sum: u16 = a as u16 + b as u16;
                self.v.set(xi, (sum % 256) as u8);
                self.v.set(0xF, if sum > 255 { 1 } else { 0 });
                Ok(())
            } else if e == 0x5 {
                let res: u8 = if a >= b { a - b } else { (a as u16 + 256 - b as u16) as u8 };
                self.v.set(xi, res);
                self.v.set(0xF, if a >= b { 1 } else { 0 });
                Ok(())
            } else if e == 0x6 {
                self.v.set(xi, a / 2);
                self.v.set(0xF, a % 2);
                Ok(())
            } else if e == 0x7 {
                let res: u8 = if b >= a { b - a } else { (b as u16 + 256 - a as u16) as u8 };
                self.v.set(xi, res);
                self.v.set(0xF, if b >= a { 1 } else { 0 });
                Ok(())
            } else if e == 0xE {
                self.v.set(xi, ((a as u16 * 2) % 256) as u8);
                self.v.set(0xF, if a >= 128 { 1 } else { 0 });
                Ok(())
            } else {
                Err(Chip8Errors::UndefinedInstruction)
            }
        } else if g == 0x9 {
            if self.v[xi] != self.v[yi] {
                self.pc = self.pc.wrapping_add(2);
            }
            Ok(())
        } else if g == 0xA {
            self.ir = nnn(uc);
            Ok(())
        } else if g == 0xB {
            self.pc = nnn(uc) + self.v[0] as u16;
            Ok(())
        } else if g == 0xC {
            self.v.set(xi, rb & kk(uc));
            Ok(())
        } else if g == 0xD {
            self.draw_sprite(xi, yi, n(uc))
        } else if g == 0xE {
            let t = two_end_id(uc);
            let vx = self.v[xi];
            if t == 0x9E {
                if vx < 16 && self.keys[vx as usize] {
                    self.pc = self.pc.wrapping_add(2);
                }
                Ok(())
            } else if t == 0xA1 {
                if !(vx < 16 && self.keys[vx as usize]) {
                    self.pc = self.pc.wrapping_add(2);
                }
                Ok(())
            } else {
                Err(Chip8Errors::UndefinedInstruction)
            }
        } else {
            let t = two_end_id(uc);
            let vx = self.v[xi];
            if t == 0x07 {
                self.v.set(xi, self.delay_timer);
                Ok(())
            } else if t == 0x0A {
                self.waiting = Some(xi as u8);
                Ok(())
            } else if t == 0x15 {
                self.delay_timer = vx;
                Ok(())
            } else if t == 0x18 {
                self.sound_timer = vx;
                Ok(())
            } else if t == 0x1E {
                self.ir = self.ir.wrapping_add(vx as u16);
                Ok(())
            } else if t == 0x29 {
                self.ir = 0x50 + 5 * (vx as u16);
                Ok(())
            } else if t == 0x33 {
                if self.ir > 0xFFF - 2 {
                    Err(Chip8Errors::AddressOutOfBounds)
                } else {
                    let a = self.ir as usize;
                    self.ram.write_at(a, vx / 100);
                    self.ram.write_at(a + 1, (vx / 10) % 10);
                    self.ram.write_at(a + 2, vx % 10);
                    Ok(())
                }
            } else if t == 0x55 {
                if self.ir as usize + xi > 0xFFF {
                    Err(Chip8Errors::AddressOutOfBounds)
                } else {
                    let base = self.ir as usize;
                    let mut i: usize = 0;
                    while i <= xi
                        invariant
                            i <= xi + 1,
                            xi < 16,
                            base == pre.ir,
                            base + xi <= 0xFFF,
                            st_wf(pre),
                            self@ == (State { mem: self@.mem, ..pre }),
                            self@.mem.len() == 4096,
                            forall|j: int|
                                0 <= j < 4096 ==> self@.mem[j] == (if base <= j < base + i {
                                    pre.v[j - base]
                                } else {
                                    pre.mem[j]
                                }),
                        decreases xi + 1 - i,
                    {
                        self.ram.write_at(base + i, self.v[i]);
                        i += 1;
                    }
                    proof {
                        assert(self@.mem =~= Seq::new(
                            4096,
                            |j: int| if pre.ir <= j <= pre.ir + xi {
                                pre.v[j - pre.ir]
                            } else {
                                pre.mem[j]
                            },
                        ));
                        assert(self@ =~= step(pre, uc, rb).0);
                    }
                    Ok(())
                }
            } else if t == 0x65 {
                if self.ir as usize + xi > 0xFFF {
                    Err(Chip8Errors::AddressOutOfBounds)
                } else {
                    let base = self.ir as usize;
                    let mut i: usize = 0;
                    while i <= xi
                        invariant
                            i <= xi + 1,
                            xi < 16,
                            base == pre.ir,
                            base + xi <= 0xFFF,
                            st_wf(pre),
                            self@ == (State { v: self@.v, ..pre }),
                            self@.v.len() == 16,
                            forall|j: int|
                                0 <= j < 16 ==> self@.v[j] == (if 0 <= j < i {
                                    pre.mem[base + j]
                                } else {
                                    pre.v[j]
                                }),
                        decreases xi + 1 - i,
                    {
                        let b = self.ram.byte_at(base + i);
                        self.v.set(i, b);
                        i += 1;
                    }
                    proof {
                        assert(self@.v =~= Seq::new(
                            16,
                            |j: int| if 0 <= j <= xi as int {
                                pre.mem[pre.ir + j]
                            } else {
                                pre.v[j]
                            },
                        ));
                        assert(self@ =~= step(pre, uc, rb).0);
                    }
                    Ok(())
                }
            } else {
                Err(Chip8Errors::UndefinedInstruction)
            }
        }
    }
}


/// Relies on rand::random: draws one byte from the thread-local generator.
/// Nothing is promised of the value.
#[verifier::external_body]
fn random_byte() -> u8 {
    rand::random::<u8>()
}

impl Chip8 {
    /// One cycle with a caller-chosen random byte: fetch at PC, advance PC
    /// by two, tick both timers, execute. While a key-wait is pending
    /// nothing happens at all.
    pub fn cycle_with(&mut self, rb: u8) -> (r: Result<(), Chip8Errors>)
        requires
            old(self).wf(),
        ensures
            final(self).wf(),
            final(self)@ == spec_cycle(old(self)@, rb).0,
            r == spec_cycle(old(self)@, rb).1,
    {
        let ghost pre = self@;
        if self.waiting.is_some() {
            return Ok(());
        }
        if self.pc > 0xFFE {
            return Err(Chip8Errors::AddressOutOfBounds);
        }
        let op1 = self.ram.byte_at(self.pc as usize);
        let op2 = self.ram.byte_at(self.pc as usize + 1);
        let w: u16 = (op1 as u16) * 256 + op2 as u16;
        self.pc = self.pc + 2;
        if self.delay_timer > 0 {
            self.delay_timer = self.delay_timer - 1;
        }
        if self.sound_timer > 0 {
            self.sound_timer = self.sound_timer - 1;
        }
        proof {
            assert(self@ =~= (State {
                pc: wrap16(pre.pc + 2),
                delay: tick(pre.delay),
                sound: tick(pre.sound),
                ..pre
            }));
        }
        self.exec(w, rb)
    }

    /// One cycle with a fresh random byte for Cxkk.
    pub fn do_cycle(&mut self) -> (r: Result<(), Chip8Errors>)
        requires
            old(self).wf(),
        ensures
            final(self).wf(),
            exists|b: u8|
                final(self)@ == #[trigger] spec_cycle(old(self)@, b).0 && r == spec_cycle(
                    old(self)@,
                    b,
                ).1,
    {
        let ghost pre = self@;
        let rb = random_byte();
        let r = self.cycle_with(rb);
        proof {
            assert(self@ == spec_cycle(pre, rb).0 && r == spec_cycle(pre, rb).1);
        }
        r
    }

    /// Ends a pending key-wait: records `key` as down, stores its value in
    /// the register the wait named, and resumes normal cycling.
    pub fn resume(&mut self, key: u8) -> (r: bool)
        requires
            old(self).wf(),
            key < 16,
        ensures
            final(self).wf(),
            r == (old(self)@.waiting is Some),
            old(self)@.waiting matches Some(xi) ==> final(self)@ == (State {
                v: old(self)@.v.update(xi as int, key),
                keys: old(self)@.keys.update(key as int, true),
                waiting: None,
                ..old(self)@
            }),
            old(self)@.waiting is None ==> final(self)@ == old(self)@,
    {
        match self.waiting {
            Some(xi) => {
                self.v.set(xi as usize, key);
                self.keys.set(key as usize, true);
                self.waiting = None;
                true
            },
            None => false,
        }
    }

    /// Whether a key-wait is pending, and for which register.
    pub fn waiting_key(&self) -> (r: Option<u8>)
        ensures
            r == self@.waiting,
    {
        self.waiting
    }

    /// Records a key-down event from the host input provider.
    pub fn key_down(&mut self, key: u8)
        requires
            old(self).wf(),
            key < 16,
        ensures
            final(self).wf(),
            final(self)@ == (State { keys: old(self)@.keys.update(key as int, true), ..old(self)@ }),
    {
        self.keys.set(key as usize, true);
    }

    /// Releases every key.
    pub fn clear_keys(&mut self)
        requires
            old(self).wf(),
        ensures
            final(self).wf(),
            final(self)@ == (State { keys: Seq::new(16, |i: int| false), ..old(self)@ }),
    {
        let ghost pre = self@;
        let mut i: usize = 0;
        while i < 16
            invariant
                i <= 16,
                self@ == (State { keys: self@.keys, ..pre }),
                self@.keys.len() == 16,
                forall|j: int| 0 <= j < i ==> self@.keys[j] == false,
            decreases 16 - i,
        {
            self.keys.set(i, false);
            i += 1;
        }
        proof {
            assert(self@ =~= (State { keys: Seq::new(16, |i: int| false), ..pre }));
        }
    }

    /// Whether key `key` is currently down.
    pub fn key(&self, key: u8) -> (r: bool)
        requires
            self.wf(),
        ensures
            r == key_down_spec(self@, key),
    {
        key < 16 && self.keys[key as usize]
    }

    pub fn pc(&self) -> (r: u16)
        ensures
            r == self@.pc,
    {
        self.pc
    }

    pub fn ir(&self) -> (r: u16)
        ensures
            r == self@.ir,
    {
        self.ir
    }

    /// The value of register `Vi`.
    pub fn reg(&self, i: u8) -> (r: u8)
        requires
            self.wf(),
            i < 16,
        ensures
            r == self@.v[i as int],
    {
        self.v[i as usize]
    }

    pub fn delay_timer(&self) -> (r: u8)
        ensures
            r == self@.delay,
    {
        self.delay_timer
    }

    pub fn sound_timer(&self) -> (r: u8)
        ensures
            r == self@.sound,
    {
        self.sound_timer
    }

    /// The read-only snapshot of one display pixel; the renderer walks the
    /// grid through this.
    pub fn pixel(&self, px: usize, py: usize) -> (r: bool)
        requires
            self.wf(),
            px < 64,
            py < 32,
        ensures
            r == self@.disp[spec_index(px, py) as int],
    {
        self.display[index(px, py)]
    }

    /// Reads one memory byte; an address above 0xFFF is a fault.
    pub fn read_mem(&self, address: usize) -> (r: Result<u8, RamErrors>)
        requires
            self.wf(),
        ensures
            address <= 0xFFF ==> r == Ok::<u8, RamErrors>(self@.mem[address as int]),
            address > 0xFFF ==> r == Err::<u8, RamErrors>(RamErrors::AddressOutOfBounds),
    {
        self.ram.read(address)
    }

    /// Writes one memory byte; an address above 0xFFF is a fault that
    /// changes nothing.
    pub fn write_mem(&mut self, address: usize, value: u8) -> (r: Result<(), RamErrors>)
        requires
            old(self).wf(),
        ensures
            final(self).wf(),
            address <= 0xFFF ==> {
                &&& r == Ok::<(), RamErrors>(())
                &&& final(self)@ == (State {
                    mem: old(self)@.mem.update(address as int, value),
                    ..old(self)@
                })
            },
            address > 0xFFF ==> {
                &&& r == Err::<(), RamErrors>(RamErrors::AddressOutOfBounds)
                &&& final(self)@ == old(self)@
            },
    {
        let r = self.ram.write(address, value);
        proof {
            if address > 0xFFF {
                assert(self@ =~= old(self)@);
            }
        }
        r
    }

    /// Loads a program image at 0x200. An image longer than 0xE00 bytes
    /// would run past the address space and is refused whole.
    pub fn load_rom(&mut self, rom: &Vec<u8>) -> (r: Result<(), RamErrors>)
        requires
            old(self).wf(),
        ensures
            final(self).wf(),
            rom@.len() <= 0xE00 ==> {
                &&& r == Ok::<(), RamErrors>(())
                &&& final(self)@ == (State {
                    mem: Seq::new(
                        4096,
                        |i: int| if 0x200 <= i < 0x200 + rom@.len() {
                            rom@[i - 0x200]
                        } else {
                            old(self)@.mem[i]
                        },
                    ),
                    ..old(self)@
                })
            },
            rom@.len() > 0xE00 ==> {
                &&& r == Err::<(), RamErrors>(RamErrors::AddressOutOfBounds)
                &&& final(self)@ == old(self)@
            },
    {
        let ghost pre = self@;
        if rom.len() > 0xE00 {
            return Err(RamErrors::AddressOutOfBounds);
        }
        let mut i: usize = 0;
        while i < rom.len()
            invariant
                i <= rom@.len(),
                rom@.len() <= 0xE00,
                st_wf(pre),
                self@ == (State { mem: self@.mem, ..pre }),
                self@.mem.len() == 4096,
                forall|j: int|
                    0 <= j < 4096 ==> self@.mem[j] == (if 0x200 <= j < 0x200 + i {
                        rom@[j - 0x200]
                    } else {
                        pre.mem[j]
                    }),
            decreases rom@.len() - i,
        {
            self.ram.write_at(0x200 + i, rom[i]);
            i += 1;
        }
        proof {
            assert(self@.mem =~= Seq::new(
                4096,
                |j: int| if 0x200 <= j < 0x200 + rom@.len() {
                    rom@[j - 0x200]
                } else {
                    pre.mem[j]
                },
            ));
            assert(self@ =~= (State { mem: self@.mem, ..pre }));
        }
        Ok(())
    }
}

impl Restart for Chip8 {
    open spec fn restart_req(pre: Chip8) -> bool {
        pre.wf()
    }

    /// Restart returns PC to 0x200, clears IR, registers, display and the
    /// call stack, restores memory to its reset image, and cancels any
    /// pending key-wait; keys and timers keep their values.
    open spec fn restarted(pre: Chip8, post: Chip8) -> bool {
        &&& post.wf()
        &&& post@ == (State {
            pc: 0x200,
            ir: 0,
            mem: Seq::new(
                4096,
                |i: int| if 0x50 <= i < 0xA0 {
                    crate::ram::font()[i - 0x50]
                } else if i >= 0xA0 {
                    0u8
                } else {
                    pre@.mem[i]
                },
            ),
            v: Seq::new(16, |i: int| 0u8),
            disp: Seq::new(2048, |i: int| false),
            stack: Seq::<u16>::empty(),
            waiting: None,
            ..pre@
        })
    }

    fn restart(&mut self) {
        let ghost pre = self@;
        self.pc = 0x200;
        self.ir = 0;
        self.ram.restart();
        let mut i: usize = 0;
        while i < 16
            invariant
                i <= 16,
                self@.v.len() == 16,
                self@ == (State { pc: self@.pc, ir: self@.ir, mem: self@.mem, v: self@.v, ..pre }),
                forall|j: int| 0 <= j < i ==> self@.v[j] == 0u8,
                self@.pc == 0x200,
                self@.ir == 0,
                self@.mem == Seq::new(
                    4096,
                    |k: int| if 0x50 <= k < 0xA0 {
                        crate::ram::font()[k - 0x50]
                    } else if k >= 0xA0 {
                        0u8
                    } else {
                        pre.mem[k]
                    },
                ),
            decreases 16 - i,
        {
            self.v.set(i, 0);
            i += 1;
        }
        self.clear_display();
        self.stack = stack_new();
        self.waiting = None;
        proof {
            assert(self@ =~= (State {
                pc: 0x200,
                ir: 0,
                mem: Seq::new(
                    4096,
                    |k: int| if 0x50 <= k < 0xA0 {
                        crate::ram::font()[k - 0x50]
                    } else if k >= 0xA0 {
                        0u8
                    } else {
                        pre.mem[k]
                    },
                ),
                v: Seq::new(16, |i: int| 0u8),
                disp: Seq::new(2048, |i: int| false),
                stack: Seq::<u16>::empty(),
                waiting: None,
                ..pre
            }));
        }
    }
}

} // verus!
