//! Laws of the interpreter that relate several operations: stated over the
//! machine model and proved from the opcode semantics `step` alone.
use vstd::prelude::*;
use vstd::math::min;
use crate::chip8::{
    draw_hits, draw_result, fetched, spec_cycle, st_wf, step, tick, wrap8, wrap16,
    Chip8Errors, State,
};
use crate::decode::{spec_bg_id, spec_end_id, spec_two_end_id, spec_x, spec_y};

verus! {

/// Add with carry: for any register contents a = Vx, b = Vy, opcode 8xy4
/// leaves Vx = (a + b) mod 256 and VF = 1 exactly when a + b > 255. (When
/// x is the flag register itself, the flag write wins; that case is left
/// out.)
pub proof fn lemma_add_carry(pre: State, uc: u16, rb: u8)
    requires
        st_wf(pre),
        spec_bg_id(uc) == 0x8,
        spec_end_id(uc) == 0x4,
        spec_x(uc) != 0xF,
    ensures
        step(pre, uc, rb).1 == Ok::<(), Chip8Errors>(()),
        step(pre, uc, rb).0.v[spec_x(uc) as int] == wrap8(
            pre.v[spec_x(uc) as int] + pre.v[spec_y(uc) as int],
        ),
        step(pre, uc, rb).0.v[0xF] == if pre.v[spec_x(uc) as int] + pre.v[spec_y(uc) as int]
            > 255 {
            1u8
        } else {
            0u8
        },
{
    crate::decode::lemma_decode_bounds(uc);
}

/// Subtract with borrow flag: for any register contents a = Vx, b = Vy,
/// opcode 8xy5 leaves VF = 1 exactly when a >= b, and Vx = (a - b) mod 256.
/// (When x is the flag register itself, the flag write wins; that case is
/// left out.)
pub proof fn lemma_sub_borrow(pre: State, uc: u16, rb: u8)
    requires
        st_wf(pre),
        spec_bg_id(uc) == 0x8,
        spec_end_id(uc) == 0x5,
        spec_x(uc) != 0xF,
    ensures
        step(pre, uc, rb).1 == Ok::<(), Chip8Errors>(()),
        step(pre, uc, rb).0.v[spec_x(uc) as int] == wrap8(
            pre.v[spec_x(uc) as int] - pre.v[spec_y(uc) as int],
        ),
        step(pre, uc, rb).0.v[0xF] == if pre.v[spec_x(uc) as int] >= pre.v[spec_y(uc) as int] {
            1u8
        } else {
            0u8
        },
{
    crate::decode::lemma_decode_bounds(uc);
}

/// Erasing by redrawing: drawing the same sprite twice at the same
/// position restores the display, and the second draw reports a collision
/// exactly when the first draw turned some pixel on. (Registers x and y
/// must not be the flag register, which the first draw overwrites.)
pub proof fn lemma_draw_twice_restores(pre: State, xs: int, ys: int, nn: int)
    requires
        st_wf(pre),
        0 <= xs < 16,
        0 <= ys < 16,
        0 <= nn < 16,
        xs != 0xF,
        ys != 0xF,
        draw_result(pre, xs, ys, nn).1 is Ok,
    ensures
        draw_result(draw_result(pre, xs, ys, nn).0, xs, ys, nn).1 is Ok,
        draw_result(draw_result(pre, xs, ys, nn).0, xs, ys, nn).0.disp == pre.disp,
        draw_result(draw_result(pre, xs, ys, nn).0, xs, ys, nn).0.v[0xF] == 1 <==> exists|i: int|
            0 <= i < 2048 && !pre.disp[i] && #[trigger] draw_hits(
                pre.mem,
                pre.ir,
                (pre.v[xs] as int) % 64,
                (pre.v[ys] as int) % 32,
                min(nn, 32 - (pre.v[ys] as int) % 32),
                i,
            ),
{
    let xpos = (pre.v[xs] as int) % 64;
    let ypos = (pre.v[ys] as int) % 32;
    let rows = min(nn, 32 - ypos);
    let mid = draw_result(pre, xs, ys, nn).0;
    assert(mid.v[xs] == pre.v[xs]);
    assert(mid.v[ys] == pre.v[ys]);
    let post2 = draw_result(mid, xs, ys, nn).0;
    assert forall|i: int| 0 <= i < 2048 implies post2.disp[i] == pre.disp[i] by {
        assert(mid.disp[i] == (pre.disp[i] != draw_hits(pre.mem, pre.ir, xpos, ypos, rows, i)));
    }
    assert(post2.disp =~= pre.disp);
    // the second collision flag
    if post2.v[0xF] == 1 {
        let wi = choose|i: int|
            0 <= i < 2048 && mid.disp[i] && #[trigger] draw_hits(
                mid.mem,
                mid.ir,
                xpos,
                ypos,
                rows,
                i,
            );
        assert(!pre.disp[wi] && draw_hits(pre.mem, pre.ir, xpos, ypos, rows, wi));
    }
    if exists|i: int|
        0 <= i < 2048 && !pre.disp[i] && #[trigger] draw_hits(
            pre.mem,
            pre.ir,
            xpos,
            ypos,
            rows,
            i,
        ) {
        let wi = choose|i: int|
            0 <= i < 2048 && !pre.disp[i] && #[trigger] draw_hits(
                pre.mem,
                pre.ir,
                xpos,
                ypos,
                rows,
                i,
            );
        assert(mid.disp[wi] && draw_hits(mid.mem, mid.ir, xpos, ypos, rows, wi));
        assert(post2.v[0xF] == 1);
    }
}

/// Clipping: a draw touches no pixel outside the rectangle that starts at
/// (Vx mod 64, Vy mod 32), runs at most eight columns wide to the right
/// edge, and at most n rows deep to the bottom edge.
pub proof fn lemma_draw_clips(pre: State, xs: int, ys: int, nn: int, i: int)
    requires
        st_wf(pre),
        0 <= xs < 16,
        0 <= ys < 16,
        0 <= nn < 16,
        draw_result(pre, xs, ys, nn).1 is Ok,
        0 <= i < 2048,
        !((pre.v[xs] as int) % 64 <= i % 64 < (pre.v[xs] as int) % 64 + 8 && (pre.v[ys] as int)
            % 32 <= i / 64 < (pre.v[ys] as int) % 32 + min(nn, 32 - (pre.v[ys] as int) % 32)),
    ensures
        draw_result(pre, xs, ys, nn).0.disp[i] == pre.disp[i],
{
}

/// Timer decay: a completed cycle whose instruction is not Fx15 (set delay
/// timer) leaves the delay timer decremented by one, floored at zero.
pub proof fn lemma_timer_decay(pre: State, rb: u8)
    requires
        st_wf(pre),
        pre.waiting is None,
        pre.pc + 1 <= 0xFFF,
        !(spec_bg_id(fetched(pre)) == 0xF && spec_two_end_id(fetched(pre)) == 0x15),
    ensures
        spec_cycle(pre, rb).0.delay == tick(pre.delay),
{
    let w = fetched(pre);
    crate::decode::lemma_decode_bounds(w);
    let mid = State { pc: wrap16(pre.pc + 2), delay: tick(pre.delay), sound: tick(pre.sound), ..pre };
    assert(spec_cycle(pre, rb).0 == step(mid, w, rb).0);
    assert(step(mid, w, rb).0.delay == mid.delay);
}

} // verus!
