//! Laws of the instruction semantics, each stated over the `step` and
//! `tick_rel` relations that the execute stage is proved against.

use vstd::prelude::*;
use vstd::arithmetic::div_mod::{lemma_fundamental_div_mod, lemma_small_mod};
use crate::state::{State, pix, addr};
use crate::machine::set_screen_post;
use crate::decode::{Instruction, Error, spec_decode};
use crate::sem::{
    step, tick_rel, fetch_word, mem_after_store, sprite_bit, cell_hits, cell_collides,
    hit_upto, coll_upto,
};

verus! {

/// The column a draw anchored by register `rx` starts at.
pub open spec fn anchor_x(s: State, rx: u8) -> int {
    (s.reg[rx as int] & 63) as int
}

/// The row a draw anchored by register `ry` starts at.
pub open spec fn anchor_y(s: State, ry: u8) -> int {
    (s.reg[ry as int] & 31) as int
}

/// Add-with-carry: for all register values, the destination takes the sum
/// modulo 256 and the flag register takes 1 exactly when the sum reached 256.
/// (With destination 15 the flag write lands on the destination itself, so
/// that case is left out of the result clause's scope.)
pub proof fn lemma_add_with_carry(
    pre: State,
    a: u8,
    b: u8,
    rand: u8,
    post: State,
    r: Result<(), Error>,
)
    requires
        pre.wf(),
        a < 16,
        b < 16,
        a != 15,
        step(pre, Instruction::AddCarry(a, b), rand, post, r),
    ensures
        r == Ok::<(), Error>(()),
        post.reg[a as int] == (pre.reg[a as int] + pre.reg[b as int]) % 256,
        post.reg[15] == (if pre.reg[a as int] + pre.reg[b as int] >= 256 { 1u8 } else { 0u8 }),
{
}

/// Subtract: the destination takes the difference modulo 256, and the flag
/// register takes 1 exactly when no borrow happened (minuend at least the
/// subtrahend).
pub proof fn lemma_subtract(
    pre: State,
    a: u8,
    b: u8,
    rand: u8,
    post: State,
    r: Result<(), Error>,
)
    requires
        pre.wf(),
        a < 16,
        b < 16,
        a != 15,
        step(pre, Instruction::Subtract(a, b), rand, post, r),
    ensures
        r == Ok::<(), Error>(()),
        post.reg[a as int] == (pre.reg[a as int] - pre.reg[b as int]) % 256,
        post.reg[15] == (if pre.reg[a as int] >= pre.reg[b as int] { 1u8 } else { 0u8 }),
{
}

/// Shift-left always moves the pre-shift most significant bit of the shifted
/// value into the flag register, whichever register the late-shift quirk
/// selects as the source.
pub proof fn lemma_shift_left_flag(
    pre: State,
    a: u8,
    b: u8,
    rand: u8,
    post: State,
    r: Result<(), Error>,
)
    requires
        pre.wf(),
        a < 16,
        b < 16,
        step(pre, Instruction::ShiftLeft(a, b), rand, post, r),
    ensures
        r == Ok::<(), Error>(()),
        post.reg[15] == (if (if pre.opts.late_shift {
            pre.reg[b as int]
        } else {
            pre.reg[a as int]
        }) >= 128 {
            1u8
        } else {
            0u8
        }),
        a != 15 ==> post.reg[a as int] == (2 * (if pre.opts.late_shift {
            pre.reg[b as int]
        } else {
            pre.reg[a as int]
        })) % 256,
{
}

/// Shift-right always moves the pre-shift least significant bit of the
/// shifted value into the flag register, whichever register the late-shift
/// quirk selects as the source.
pub proof fn lemma_shift_right_flag(
    pre: State,
    a: u8,
    b: u8,
    rand: u8,
    post: State,
    r: Result<(), Error>,
)
    requires
        pre.wf(),
        a < 16,
        b < 16,
        step(pre, Instruction::ShiftRight(a, b), rand, post, r),
    ensures
        r == Ok::<(), Error>(()),
        post.reg[15] == ((if pre.opts.late_shift {
            pre.reg[b as int]
        } else {
            pre.reg[a as int]
        }) % 2) as u8,
        a != 15 ==> post.reg[a as int] == (if pre.opts.late_shift {
            pre.reg[b as int]
        } else {
            pre.reg[a as int]
        }) / 2,
{
}

/// Two consecutive store addresses never coincide within the 16-register
/// range.
proof fn lemma_addr_distinct(idx: u16, k: int, n: int)
    requires
        0 <= k < n < 4096,
    ensures
        addr(idx, k) != addr(idx, n),
{
    lemma_fundamental_div_mod(idx + k, 4096);
    lemma_fundamental_div_mod(idx + n, 4096);
}

/// Storing registers never changes the memory's size.
proof fn lemma_store_len(mem: Seq<u8>, reg: Seq<u8>, idx: u16, n: int)
    requires
        mem.len() == 4096,
    ensures
        mem_after_store(mem, reg, idx, n).len() == mem.len(),
    decreases n + 1,
{
    if n >= 0 {
        lemma_store_len(mem, reg, idx, n - 1);
    }
}

/// Reading back a stored register: position `k` of the stored image holds
/// register `k`.
proof fn lemma_store_read(mem: Seq<u8>, reg: Seq<u8>, idx: u16, n: int, k: int)
    requires
        mem.len() == 4096,
        0 <= k <= n <= 15,
    ensures
        mem_after_store(mem, reg, idx, n)[addr(idx, k)] == reg[k],
    decreases n,
{
    lemma_store_len(mem, reg, idx, n - 1);
    if k == n {
    } else {
        lemma_store_read(mem, reg, idx, n - 1, k);
        lemma_addr_distinct(idx, k, n);
    }
}

/// Store-then-load round trip: storing registers 0 through `n` at the index
/// register and loading them back from the same index restores every
/// register exactly.
pub proof fn lemma_store_load_round_trip(
    pre: State,
    n: u8,
    rand1: u8,
    rand2: u8,
    s1: State,
    r1: Result<(), Error>,
    s2: State,
    r2: Result<(), Error>,
)
    requires
        pre.wf(),
        n <= 15,
        step(pre, Instruction::StoreMemory(n), rand1, s1, r1),
        step(
            (State { index: pre.index, ..s1 }),
            Instruction::LoadMemory(n),
            rand2,
            s2,
            r2,
        ),
    ensures
        r1 == Ok::<(), Error>(()),
        r2 == Ok::<(), Error>(()),
        s2.reg == pre.reg,
{
    assert forall|k: int| 0 <= k < 16 implies s2.reg[k] == pre.reg[k] by {
        if k <= n {
            lemma_store_read(pre.mem, pre.reg, pre.index, n as int, k);
        }
    }
    assert(s2.reg =~= pre.reg);
}

/// Key-wait keeps the program counter in place: when the key mask is all
/// zero and the fetched instruction is the blocking get-key, a whole tick
/// leaves the program counter exactly where it started.
pub proof fn lemma_key_wait(
    pre: State,
    a: u8,
    rand: u8,
    post: State,
    r: Result<(), Error>,
)
    requires
        pre.wf(),
        pre.keys == 0,
        pre.pc <= 4094,
        spec_decode(fetch_word(pre)) == Ok::<Instruction, Error>(Instruction::GetKey(a)),
        tick_rel(pre, post, r, rand),
    ensures
        r == Ok::<(), Error>(()),
        post.pc == pre.pc,
{
    crate::exec::lemma_pc_mod_roundtrip(pre.pc);
}

/// With horizontal wrap enabled, a pixel write at any column lands exactly
/// where the same write at that column reduced modulo the screen width
/// lands: the two writes succeed together and leave identical screens.
pub proof fn lemma_set_screen_wrap(
    pre: State,
    post1: State,
    post2: State,
    x: int,
    y: int,
    value: bool,
    r1: Result<(), Error>,
    r2: Result<(), Error>,
)
    requires
        pre.opts.horizontal_wrap,
        0 <= x,
        0 <= y,
        set_screen_post(pre, post1, x, y, value, r1),
        set_screen_post(pre, post2, x % 64, y, value, r2),
    ensures
        r1 == r2,
        forall|x2: int, y2: int|
            0 <= x2 < 64 && 0 <= y2 < 32 ==> pix(post1.screen, x2, y2) == pix(
                post2.screen,
                x2,
                y2,
            ),
{
    crate::exec::lemma_wrap_range(x, 64);
    lemma_small_mod((x % 64) as nat, 64);
}

/// Without horizontal wrap, a pixel write past the right edge is a rejected
/// no-op: it fails and the whole state is unchanged.
pub proof fn lemma_set_screen_clip(
    pre: State,
    post: State,
    x: int,
    y: int,
    value: bool,
    r: Result<(), Error>,
)
    requires
        !pre.opts.horizontal_wrap,
        x >= 64,
        0 <= y,
        set_screen_post(pre, post, x, y, value, r),
    ensures
        r == Err::<(), Error>(Error::SetScreenOutOfBounds),
        post == pre,
{
}

/// A drawn sprite's cells are pairwise on distinct pixels, so drawing the
/// same sprite twice at the same anchor with no other mutation first paints
/// it and then erases it: the screen returns to its pre-draw pixels, and the
/// second draw reports a collision whenever the first draw flipped anything
/// in an initially clear target area.
pub proof fn lemma_draw_twice(
    pre: State,
    rx: u8,
    ry: u8,
    n: u8,
    rand1: u8,
    rand2: u8,
    s1: State,
    r1: Result<(), Error>,
    s2: State,
    r2: Result<(), Error>,
)
    requires
        pre.wf(),
        rx < 16,
        ry < 16,
        n < 16,
        rx != 15,
        ry != 15,
        step(pre, Instruction::Display(rx, ry, n), rand1, s1, r1),
        step(s1, Instruction::Display(rx, ry, n), rand2, s2, r2),
        // the target area holds no lit pixel before the first draw
        !coll_upto(pre, anchor_x(pre, rx), anchor_y(pre, ry), 8 * n),
        // at least one sprite cell is actually drawn
        exists|x2: int, y2: int|
            #[trigger] hit_upto(pre, anchor_x(pre, rx), anchor_y(pre, ry), 8 * n, x2, y2),
    ensures
        r1 == Ok::<(), Error>(()),
        r2 == Ok::<(), Error>(()),
        forall|x2: int, y2: int|
            0 <= x2 < 64 && 0 <= y2 < 32 ==> pix(s2.screen, x2, y2) == pix(pre.screen, x2, y2),
        s2.reg[15] == 1,
{
    let x0 = anchor_x(pre, rx);
    let y0 = anchor_y(pre, ry);
    // the second draw reads the same registers, memory, index and quirks
    assert(s1.reg[rx as int] == pre.reg[rx as int]);
    assert(s1.reg[ry as int] == pre.reg[ry as int]);
    assert(anchor_x(s1, rx) == x0);
    assert(anchor_y(s1, ry) == y0);
    assert forall|i: int, j: int, x2: int, y2: int| #[trigger] cell_hits(s1, x0, y0, i, j, x2, y2)
        == cell_hits(pre, x0, y0, i, j, x2, y2) by {
        assert(sprite_bit(s1, i, j) == sprite_bit(pre, i, j));
    }
    // hence the same cells hit the same pixels in both draws
    assert forall|x2: int, y2: int| #[trigger] hit_upto(s1, x0, y0, 8 * n, x2, y2) == hit_upto(
        pre,
        x0,
        y0,
        8 * n,
        x2,
        y2,
    ) by {
        if hit_upto(s1, x0, y0, 8 * n, x2, y2) {
            let (i2, j2): (int, int) = choose|i2: int, j2: int|
                0 <= i2 && 0 <= j2 < 8 && i2 * 8 + j2 < 8 * n && #[trigger] cell_hits(
                    s1,
                    x0,
                    y0,
                    i2,
                    j2,
                    x2,
                    y2,
                );
            assert(cell_hits(pre, x0, y0, i2, j2, x2, y2));
            assert(hit_upto(pre, x0, y0, 8 * n, x2, y2));
        }
        if hit_upto(pre, x0, y0, 8 * n, x2, y2) {
            let (i2, j2): (int, int) = choose|i2: int, j2: int|
                0 <= i2 && 0 <= j2 < 8 && i2 * 8 + j2 < 8 * n && #[trigger] cell_hits(
                    pre,
                    x0,
                    y0,
                    i2,
                    j2,
                    x2,
                    y2,
                );
            assert(cell_hits(s1, x0, y0, i2, j2, x2, y2));
            assert(hit_upto(s1, x0, y0, 8 * n, x2, y2));
        }
    }
    // the screen after the second draw: every pixel flipped twice or never
    assert forall|x2: int, y2: int| 0 <= x2 < 64 && 0 <= y2 < 32 implies pix(s2.screen, x2, y2)
        == pix(pre.screen, x2, y2) by {
        assert(pix(s1.screen, x2, y2) == (pix(pre.screen, x2, y2) != hit_upto(
            pre,
            x0,
            y0,
            8 * n,
            x2,
            y2,
        )));
    }
    // the witness pixel was clear, so the second draw collides there
    let (wx, wy): (int, int) = choose|wx: int, wy: int| #[trigger] hit_upto(pre, x0, y0, 8 * n, wx, wy);
    let (wi, wj): (int, int) = choose|wi: int, wj: int|
        0 <= wi && 0 <= wj < 8 && wi * 8 + wj < 8 * n && #[trigger] cell_hits(
            pre,
            x0,
            y0,
            wi,
            wj,
            wx,
            wy,
        );
    assert(!cell_collides(pre, x0, y0, wi, wj));
    assert(0 <= wx < 64 && 0 <= wy < 32) by {
        crate::exec::lemma_wrap_range(x0 + wj, 64);
        crate::exec::lemma_wrap_range(y0 + wi, 32);
    }
    assert(!pix(pre.screen, wx, wy));
    assert(pix(s1.screen, wx, wy));
    assert(cell_collides(s1, x0, y0, wi, wj));
    assert(coll_upto(s1, x0, y0, 8 * n));
    assert(s2.reg[15] == 1);
}

} // verus!
