//! The instruction semantics: a relation tying the machine state before one
//! instruction to the state and result after it. Every execute-stage contract
//! and every stated law goes through `step`.

use vstd::prelude::*;
use crate::state::{State, pix, byte_bit, key_bit, w16, addr, wrapped, lowest_unset_key};
use crate::decode::{Instruction, RegOrVal, Error, spec_nibble};

verus! {

/// The big-endian instruction word at the program counter.
pub open spec fn fetch_word(s: State) -> u16 {
    (s.mem[s.pc as int] * 256 + s.mem[s.pc as int + 1]) as u16
}

/// The value of a register-or-immediate operand.
pub open spec fn rv_value(s: State, rv: RegOrVal) -> u8 {
    match rv {
        RegOrVal::Value(v) => v as u8,
        RegOrVal::Register(b) => s.reg[b as int],
    }
}

/// Memory after registers 0 through `n` are stored at `idx`, in order, each
/// address wrapped to the 4096-byte space.
pub open spec fn mem_after_store(mem: Seq<u8>, reg: Seq<u8>, idx: u16, n: int) -> Seq<u8>
    decreases n + 1,
{
    if n < 0 {
        mem
    } else {
        mem_after_store(mem, reg, idx, n - 1).update(addr(idx, n), reg[n])
    }
}

/// Registers after registers 0 through `n` are loaded from `idx`.
pub open spec fn reg_after_load(mem: Seq<u8>, reg: Seq<u8>, idx: u16, n: int) -> Seq<u8> {
    Seq::new(reg.len(), |k: int| if 0 <= k <= n { mem[addr(idx, k)] } else { reg[k] })
}

/// Bit `j` of sprite row `i`, read from memory at the index register.
pub open spec fn sprite_bit(s: State, i: int, j: int) -> bool {
    byte_bit(s.mem[addr(s.index, i)], j)
}

/// The column sprite column `j` lands on from anchor `x0`, if it is drawn.
pub open spec fn tgt_x(s: State, x0: int, j: int) -> Option<int> {
    wrapped(x0 + j, 64, s.opts.horizontal_wrap)
}

/// The row sprite row `i` lands on from anchor `y0`, if it is drawn.
pub open spec fn tgt_y(s: State, y0: int, i: int) -> Option<int> {
    wrapped(y0 + i, 32, s.opts.vertical_wrap)
}

/// Sprite cell (row `i`, column `j`) is set and lands on pixel (x2, y2).
pub open spec fn cell_hits(s: State, x0: int, y0: int, i: int, j: int, x2: int, y2: int) -> bool {
    sprite_bit(s, i, j) && tgt_x(s, x0, j) == Some(x2) && tgt_y(s, y0, i) == Some(y2)
}

/// Sprite cell (i, j) is set, drawn, and lands on a pixel lit before the draw.
pub open spec fn cell_collides(s: State, x0: int, y0: int, i: int, j: int) -> bool {
    match (tgt_x(s, x0, j), tgt_y(s, y0, i)) {
        (Some(x2), Some(y2)) => sprite_bit(s, i, j) && pix(s.screen, x2, y2),
        _ => false,
    }
}

/// Some cell among the first `k` in row-major draw order flips pixel (x2, y2).
pub open spec fn hit_upto(s: State, x0: int, y0: int, k: int, x2: int, y2: int) -> bool {
    exists|i: int, j: int|
        0 <= i && 0 <= j < 8 && i * 8 + j < k && #[trigger] cell_hits(s, x0, y0, i, j, x2, y2)
}

/// Some cell among the first `k` in draw order collides.
pub open spec fn coll_upto(s: State, x0: int, y0: int, k: int) -> bool {
    exists|i: int, j: int|
        0 <= i && 0 <= j < 8 && i * 8 + j < k && #[trigger] cell_collides(s, x0, y0, i, j)
}

/// What one instruction does: relates the state before (`pre`, with the
/// program counter already advanced past the instruction) to the state after
/// (`post`) and the result. `rand` is the byte the randomize instruction
/// drew; every other instruction ignores it.
pub open spec fn step(
    pre: State,
    inst: Instruction,
    rand: u8,
    post: State,
    r: Result<(), Error>,
) -> bool {
    match inst {
        Instruction::ClearScreen => r == Ok::<(), Error>(()) && post == (State {
            screen: Seq::new(256, |i: int| 0u8),
            ..pre
        }),
        Instruction::Jump(v) => r == Ok::<(), Error>(()) && post == (State { pc: v, ..pre }),
        Instruction::Subroutine(v) => r == Ok::<(), Error>(()) && post == (State {
            stack: pre.stack.push(pre.pc),
            pc: v,
            ..pre
        }),
        Instruction::SubroutineReturn => if pre.stack.len() == 0 {
            r == Err::<(), Error>(Error::EmptySubroutineReturn) && post == pre
        } else {
            r == Ok::<(), Error>(()) && post == (State {
                pc: pre.stack.last(),
                stack: pre.stack.drop_last(),
                ..pre
            })
        },
        Instruction::SkipIfEqual(a, rv) => r == Ok::<(), Error>(()) && post == (State {
            pc: if pre.reg[a as int] == rv_value(pre, rv) { w16(pre.pc + 2) } else { pre.pc },
            ..pre
        }),
        Instruction::SkipIfNotEqual(a, rv) => r == Ok::<(), Error>(()) && post == (State {
            pc: if pre.reg[a as int] != rv_value(pre, rv) { w16(pre.pc + 2) } else { pre.pc },
            ..pre
        }),
        Instruction::SetReg(a, rv) => r == Ok::<(), Error>(()) && post == (State {
            reg: pre.reg.update(a as int, rv_value(pre, rv)),
            ..pre
        }),
        Instruction::Add(a, v) => r == Ok::<(), Error>(()) && post == (State {
            reg: pre.reg.update(a as int, ((pre.reg[a as int] + v) % 256) as u8),
            ..pre
        }),
        Instruction::BinaryOR(a, b) => r == Ok::<(), Error>(()) && post == (State {
            reg: pre.reg.update(a as int, pre.reg[a as int] | pre.reg[b as int]),
            ..pre
        }),
        Instruction::BinaryAND(a, b) => r == Ok::<(), Error>(()) && post == (State {
            reg: pre.reg.update(a as int, pre.reg[a as int] & pre.reg[b as int]),
            ..pre
        }),
        Instruction::LogicalXOR(a, b) => r == Ok::<(), Error>(()) && post == (State {
            reg: pre.reg.update(a as int, pre.reg[a as int] ^ pre.reg[b as int]),
            ..pre
        }),
        Instruction::AddCarry(a, b) => r == Ok::<(), Error>(()) && post == (State {
            reg: pre.reg.update(
                a as int,
                ((pre.reg[a as int] + pre.reg[b as int]) % 256) as u8,
            ).update(
                15,
                if pre.reg[a as int] + pre.reg[b as int] >= 256 { 1u8 } else { 0u8 },
            ),
            ..pre
        }),
        Instruction::Subtract(a, b) => r == Ok::<(), Error>(()) && post == (State {
            reg: pre.reg.update(
                a as int,
                ((pre.reg[a as int] - pre.reg[b as int]) % 256) as u8,
            ).update(
                15,
                if pre.reg[a as int] >= pre.reg[b as int] { 1u8 } else { 0u8 },
            ),
            ..pre
        }),
        Instruction::SubtractNegative(a, b) => r == Ok::<(), Error>(()) && post == (State {
            reg: pre.reg.update(
                a as int,
                ((pre.reg[b as int] - pre.reg[a as int]) % 256) as u8,
            ).update(
                15,
                if pre.reg[b as int] >= pre.reg[a as int] { 1u8 } else { 0u8 },
            ),
            ..pre
        }),
        Instruction::ShiftLeft(a, b) => {
            let src = if pre.opts.late_shift { pre.reg[b as int] } else { pre.reg[a as int] };
            r == Ok::<(), Error>(()) && post == (State {
                reg: pre.reg.update(a as int, ((2 * src) % 256) as u8).update(
                    15,
                    if src >= 128 { 1u8 } else { 0u8 },
                ),
                ..pre
            })
        },
        Instruction::ShiftRight(a, b) => {
            let src = if pre.opts.late_shift { pre.reg[b as int] } else { pre.reg[a as int] };
            r == Ok::<(), Error>(()) && post == (State {
                reg: pre.reg.update(a as int, (src / 2) as u8).update(
                    15,
                    (src % 2) as u8,
                ),
                ..pre
            })
        },
        Instruction::SetIndex(v) => r == Ok::<(), Error>(()) && post == (State {
            index: v,
            ..pre
        }),
        Instruction::JumpWithOffset(v) => {
            let sel = if pre.opts.late_jump_with_offset { spec_nibble(v, 1) } else { 0u8 };
            r == Ok::<(), Error>(()) && post == (State {
                pc: w16(v + pre.reg[sel as int]),
                ..pre
            })
        },
        Instruction::Random(a, mask) => r == Ok::<(), Error>(()) && post == (State {
            reg: pre.reg.update(a as int, rand & mask),
            ..pre
        }),
        Instruction::Display(rx, ry, n) => {
            let x0 = (pre.reg[rx as int] & 63) as int;
            let y0 = (pre.reg[ry as int] & 31) as int;
            let steps: int = 8 * n;
            &&& r == Ok::<(), Error>(())
            &&& post.screen.len() == pre.screen.len()
            &&& forall|x2: int, y2: int|
                0 <= x2 < 64 && 0 <= y2 < 32 ==> pix(post.screen, x2, y2) == (pix(
                    pre.screen,
                    x2,
                    y2,
                ) != hit_upto(pre, x0, y0, steps, x2, y2))
            &&& post.reg == pre.reg.update(
                15,
                if coll_upto(pre, x0, y0, steps) { 1u8 } else { 0u8 },
            )
            &&& post == (State { screen: post.screen, reg: post.reg, ..pre })
        },
        Instruction::SkipIfKeyPressed(a) => r == Ok::<(), Error>(()) && post == (State {
            pc: if key_bit(pre.keys, (pre.reg[a as int] & 15) as u16) {
                w16(pre.pc + 2)
            } else {
                pre.pc
            },
            ..pre
        }),
        Instruction::SkipIfKeyNotPressed(a) => r == Ok::<(), Error>(()) && post == (State {
            pc: if !key_bit(pre.keys, (pre.reg[a as int] & 15) as u16) {
                w16(pre.pc + 2)
            } else {
                pre.pc
            },
            ..pre
        }),
        Instruction::SetToDelay(a) => r == Ok::<(), Error>(()) && post == (State {
            reg: pre.reg.update(a as int, pre.delay),
            ..pre
        }),
        Instruction::SetDelayTimer(a) => r == Ok::<(), Error>(()) && post == (State {
            delay: pre.reg[a as int],
            ..pre
        }),
        Instruction::SetSoundTimer(a) => r == Ok::<(), Error>(()) && post == (State {
            sound: pre.reg[a as int],
            ..pre
        }),
        Instruction::AddToIndex(a) => r == Ok::<(), Error>(()) && post == (State {
            index: w16(pre.index + pre.reg[a as int]),
            ..pre
        }),
        Instruction::GetKey(a) => r == Ok::<(), Error>(()) && post == (if pre.keys == 0 {
            State { pc: w16(pre.pc - 2), ..pre }
        } else {
            State { reg: pre.reg.update(a as int, lowest_unset_key(pre.keys)), ..pre }
        }),
        Instruction::FontChar(a) => r == Ok::<(), Error>(()) && post == (State {
            index: (0x50 + 5 * (pre.reg[a as int] & 15)) as u16,
            ..pre
        }),
        Instruction::DecimalConversion(a) => {
            let v = pre.reg[a as int];
            r == Ok::<(), Error>(()) && post == (State {
                mem: pre.mem.update(addr(pre.index, 2), (v % 10) as u8).update(
                    addr(pre.index, 1),
                    ((v / 10) % 10) as u8,
                ).update(addr(pre.index, 0), ((v / 100) % 10) as u8),
                ..pre
            })
        },
        Instruction::StoreMemory(cnt) => if cnt > 15 {
            r == Err::<(), Error>(Error::IllegalSave) && post == pre
        } else {
            r == Ok::<(), Error>(()) && post == (State {
                mem: mem_after_store(pre.mem, pre.reg, pre.index, cnt as int),
                index: if pre.opts.late_store_load {
                    w16(pre.index + cnt + 1)
                } else {
                    pre.index
                },
                ..pre
            })
        },
        Instruction::LoadMemory(cnt) => if cnt > 15 {
            r == Err::<(), Error>(Error::IllegalLoad) && post == pre
        } else {
            r == Ok::<(), Error>(()) && post == (State {
                reg: reg_after_load(pre.mem, pre.reg, pre.index, cnt as int),
                index: if pre.opts.late_store_load {
                    w16(pre.index + cnt + 1)
                } else {
                    pre.index
                },
                ..pre
            })
        },
    }
}

/// What one whole tick does: the fetch advance, then either the fetch or
/// decode error, or the decoded instruction's step.
pub open spec fn tick_rel(pre: State, post: State, r: Result<(), Error>, rand: u8) -> bool {
    let s1 = State { pc: w16(pre.pc + 2), ..pre };
    if pre.pc > 4094 {
        post == s1 && r == Err::<(), Error>(Error::EmptyFetch)
    } else {
        match crate::decode::spec_decode(fetch_word(pre)) {
            Ok(inst) => step(s1, inst, rand, post, r),
            Err(e) => post == s1 && r == Err::<(), Error>(e),
        }
    }
}

} // verus!
