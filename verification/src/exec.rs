//! The execute stage and the tick: one fetch-decode-execute cycle, proved
//! against the `step` and `tick_rel` relations.

use vstd::prelude::*;
use vstd::arithmetic::div_mod::{lemma_small_mod, lemma_mod_add_multiples_vanish};
use crate::state::{State, pix, w16, addr, WIDTH, HEIGHT};
use crate::decode::{Instruction, RegOrVal, Error, CodedInstruction, inst_wf, nibble};
use crate::machine::Chip8;
use crate::sem::{
    step, tick_rel, fetch_word, mem_after_store, reg_after_load, sprite_bit, tgt_x, tgt_y,
    cell_hits, cell_collides, hit_upto, coll_upto,
};

verus! {

/// Relies on fastrand::u8 over the full byte range: it returns some byte and
/// cannot fail on that range; nothing is assumed of the value.
#[verifier::external_body]
fn random_byte() -> u8 {
    fastrand::u8(..)
}

/// An 8-bit value reduced modulo 256, split by range.
proof fn lemma_mod256(x: int)
    requires
        -256 <= x < 512,
    ensures
        x % 256 == if x < 0 {
            x + 256
        } else if x < 256 {
            x
        } else {
            x - 256
        },
{
    if x < 0 {
        lemma_mod_add_multiples_vanish(x, 256);
        lemma_small_mod((x + 256) as nat, 256);
    } else if x < 256 {
        lemma_small_mod(x as nat, 256);
    } else {
        lemma_mod_add_multiples_vanish(x - 256, 256);
        lemma_small_mod((x - 256) as nat, 256);
    }
}

/// A 16-bit value reduced modulo 2^16, split by range.
proof fn lemma_mod65536(x: int)
    requires
        -0x10000 <= x < 0x20000,
    ensures
        w16(x) == if x < 0 {
            (x + 0x10000) as u16
        } else if x < 0x10000 {
            x as u16
        } else {
            (x - 0x10000) as u16
        },
{
    if x < 0 {
        lemma_mod_add_multiples_vanish(x, 0x10000);
        lemma_small_mod((x + 0x10000) as nat, 0x10000);
    } else if x < 0x10000 {
        lemma_small_mod(x as nat, 0x10000);
    } else {
        lemma_mod_add_multiples_vanish(x - 0x10000, 0x10000);
        lemma_small_mod((x - 0x10000) as nat, 0x10000);
    }
}

/// A value below twice the modulus wraps by a single subtraction.
proof fn lemma_wrap_small(a: int, m: int)
    requires
        0 <= a < 2 * m,
        0 < m,
    ensures
        a % m == if a < m {
            a
        } else {
            a - m
        },
{
    if a < m {
        lemma_small_mod(a as nat, m as nat);
    } else {
        lemma_mod_add_multiples_vanish(a - m, m);
        lemma_small_mod((a - m) as nat, m as nat);
    }
}

/// A nonnegative value reduced by a positive modulus lands in its range.
pub proof fn lemma_wrap_range(c: int, m: int)
    requires
        0 <= c,
        0 < m,
    ensures
        0 <= c % m < m,
{
}

/// Advancing the program counter past an instruction and stepping it back
/// returns it exactly, anywhere in the address space.
pub proof fn lemma_pc_mod_roundtrip(pc: u16)
    requires
        pc <= 4094,
    ensures
        w16(w16(pc + 2) - 2) == pc,
{
    lemma_mod65536(pc + 2);
    lemma_mod65536(w16(pc + 2) - 2);
}

/// Two drawn sprite cells never land on the same pixel: rows stay distinct
/// modulo the screen height, columns modulo the width.
proof fn lemma_cell_unique(
    s: State,
    x0: int,
    y0: int,
    i1: int,
    j1: int,
    i2: int,
    j2: int,
    x2: int,
    y2: int,
)
    requires
        0 <= x0 < 64,
        0 <= y0 < 32,
        0 <= i1 < 32,
        0 <= j1 < 8,
        0 <= i2 < 32,
        0 <= j2 < 8,
        cell_hits(s, x0, y0, i1, j1, x2, y2),
        cell_hits(s, x0, y0, i2, j2, x2, y2),
    ensures
        i1 == i2 && j1 == j2,
{
    lemma_wrap_small(x0 + j1, 64);
    lemma_wrap_small(x0 + j2, 64);
    lemma_wrap_small(y0 + i1, 32);
    lemma_wrap_small(y0 + i2, 32);
}

/// Extending the processed prefix of the draw by one cell adds exactly that
/// cell's hit and collision.
proof fn lemma_upto_extend(s: State, x0: int, y0: int, i: int, j: int)
    requires
        0 <= i,
        0 <= j < 8,
    ensures
        forall|x2: int, y2: int|
            #[trigger] hit_upto(s, x0, y0, 8 * i + j + 1, x2, y2) == (hit_upto(
                s,
                x0,
                y0,
                8 * i + j,
                x2,
                y2,
            ) || cell_hits(s, x0, y0, i, j, x2, y2)),
        coll_upto(s, x0, y0, 8 * i + j + 1) == (coll_upto(s, x0, y0, 8 * i + j) || cell_collides(
            s,
            x0,
            y0,
            i,
            j,
        )),
{
    let k = 8 * i + j;
    assert forall|x2: int, y2: int|
        #[trigger] hit_upto(s, x0, y0, k + 1, x2, y2) == (hit_upto(s, x0, y0, k, x2, y2)
            || cell_hits(s, x0, y0, i, j, x2, y2)) by {
        if hit_upto(s, x0, y0, k + 1, x2, y2) {
            let (i2, j2): (int, int) = choose|i2: int, j2: int|
                0 <= i2 && 0 <= j2 < 8 && i2 * 8 + j2 < k + 1 && #[trigger] cell_hits(
                    s,
                    x0,
                    y0,
                    i2,
                    j2,
                    x2,
                    y2,
                );
            if i2 * 8 + j2 == k {
                assert(i2 == i && j2 == j);
            } else {
                assert(hit_upto(s, x0, y0, k, x2, y2));
            }
        }
        if cell_hits(s, x0, y0, i, j, x2, y2) {
            assert(i * 8 + j < k + 1);
            assert(hit_upto(s, x0, y0, k + 1, x2, y2));
        }
        if hit_upto(s, x0, y0, k, x2, y2) {
            let (i2, j2): (int, int) = choose|i2: int, j2: int|
                0 <= i2 && 0 <= j2 < 8 && i2 * 8 + j2 < k && #[trigger] cell_hits(
                    s,
                    x0,
                    y0,
                    i2,
                    j2,
                    x2,
                    y2,
                );
            assert(i2 * 8 + j2 < k + 1);
            assert(hit_upto(s, x0, y0, k + 1, x2, y2));
        }
    }
    if coll_upto(s, x0, y0, k + 1) {
        let (i2, j2): (int, int) = choose|i2: int, j2: int|
            0 <= i2 && 0 <= j2 < 8 && i2 * 8 + j2 < k + 1 && #[trigger] cell_collides(
                s,
                x0,
                y0,
                i2,
                j2,
            );
        if i2 * 8 + j2 == k {
            assert(i2 == i && j2 == j);
        } else {
            assert(coll_upto(s, x0, y0, k));
        }
    }
    if coll_upto(s, x0, y0, k) {
        let (i2, j2): (int, int) = choose|i2: int, j2: int|
            0 <= i2 && 0 <= j2 < 8 && i2 * 8 + j2 < k && #[trigger] cell_collides(s, x0, y0, i2, j2);
        assert(i2 * 8 + j2 < k + 1);
        assert(coll_upto(s, x0, y0, k + 1));
    }
    if cell_collides(s, x0, y0, i, j) {
        assert(i * 8 + j < k + 1);
        assert(coll_upto(s, x0, y0, k + 1));
    }
}

/// The draw loop's invariant after `k` cells: the screen holds the pre-draw
/// pixels flipped by the hits so far, the flag register holds the collisions
/// so far, and nothing else moved.
spec fn draw_inv(pre: State, cur: State, x0: int, y0: int, k: int) -> bool {
    &&& cur.screen.len() == 256
    &&& forall|x2: int, y2: int|
        0 <= x2 < 64 && 0 <= y2 < 32 ==> pix(cur.screen, x2, y2) == (pix(pre.screen, x2, y2)
            != hit_upto(pre, x0, y0, k, x2, y2))
    &&& cur.reg == pre.reg.update(15, if coll_upto(pre, x0, y0, k) { 1u8 } else { 0u8 })
    &&& cur == (State { screen: cur.screen, reg: cur.reg, ..pre })
}

impl Instruction {
    /// Executes one decoded instruction against the machine, with the
    /// program counter already advanced past it. Relates the outcome to
    /// `step` for some drawn random byte; every instruction but randomize is
    /// deterministic in the state.
    #[verifier::rlimit(100)]
    pub fn execute(self, chip8: &mut Chip8) -> (r: Result<(), Error>)
        requires
            old(chip8).wf(),
            inst_wf(self),
        ensures
            final(chip8).wf(),
            exists|b: u8| #[trigger] step(old(chip8)@, self, b, final(chip8)@, r),
    {
        let ghost pre = old(chip8)@;
        match self {
            Instruction::ClearScreen => {
                let mut i: usize = 0;
                while i < 256
                    invariant
                        i <= 256,
                        chip8.wf(),
                        chip8@ == (State { screen: chip8@.screen, ..pre }),
                        forall|k: int| 0 <= k < i ==> chip8@.screen[k] == 0u8,
                    decreases 256 - i,
                {
                    chip8.screen.set(i, 0);
                    i += 1;
                }
                proof {
                    assert(chip8@.screen =~= Seq::new(256, |i: int| 0u8));
                    assert(step(pre, self, 0u8, chip8@, Ok::<(), Error>(())));
                }
                Ok(())
            },
            Instruction::Jump(v) => {
                chip8.program_counter = v;
                proof {
                    assert(step(pre, self, 0u8, chip8@, Ok::<(), Error>(())));
                }
                Ok(())
            },
            Instruction::Subroutine(v) => {
                let pc = chip8.program_counter;
                chip8.stack.push(pc);
                chip8.program_counter = v;
                proof {
                    assert(step(pre, self, 0u8, chip8@, Ok::<(), Error>(())));
                }
                Ok(())
            },
            Instruction::SubroutineReturn => {
                match chip8.stack.pop() {
                    Some(s) => {
                        chip8.program_counter = s;
                        proof {
                            assert(step(pre, self, 0u8, chip8@, Ok::<(), Error>(())));
                        }
                        Ok(())
                    },
                    None => {
                        proof {
                            assert(step(
                                pre,
                                self,
                                0u8,
                                chip8@,
                                Err::<(), Error>(Error::EmptySubroutineReturn),
                            ));
                        }
                        Err(Error::EmptySubroutineReturn)
                    },
                }
            },
            Instruction::SkipIfEqual(a, rv) => {
                let val = match rv {
                    RegOrVal::Value(v) => v as u8,
                    RegOrVal::Register(rb) => chip8.register[rb as usize],
                };
                if chip8.register[a as usize] == val {
                    chip8.program_counter = chip8.program_counter.wrapping_add(2);
                }
                proof {
                    lemma_mod65536(pre.pc + 2);
                    assert(step(pre, self, 0u8, chip8@, Ok::<(), Error>(())));
                }
                Ok(())
            },
            Instruction::SkipIfNotEqual(a, rv) => {
                let val = match rv {
                    RegOrVal::Value(v) => v as u8,
                    RegOrVal::Register(rb) => chip8.register[rb as usize],
                };
                if chip8.register[a as usize] != val {
                    chip8.program_counter = chip8.program_counter.wrapping_add(2);
                }
                proof {
                    lemma_mod65536(pre.pc + 2);
                    assert(step(pre, self, 0u8, chip8@, Ok::<(), Error>(())));
                }
                Ok(())
            },
            Instruction::SetReg(a, rv) => {
                let val = match rv {
                    RegOrVal::Value(v) => v as u8,
                    RegOrVal::Register(rb) => chip8.register[rb as usize],
                };
                chip8.register.set(a as usize, val);
                proof {
                    assert(step(pre, self, 0u8, chip8@, Ok::<(), Error>(())));
                }
                Ok(())
            },
            Instruction::Add(a, v) => {
                let sum: u16 = chip8.register[a as usize] as u16 + v as u16;
                chip8.register.set(a as usize, (sum % 256) as u8);
                proof {
                    lemma_mod256(pre.reg[a as int] + v);
                    assert(step(pre, self, 0u8, chip8@, Ok::<(), Error>(())));
                }
                Ok(())
            },
            Instruction::BinaryOR(a, b) => {
                let val = chip8.register[a as usize] | chip8.register[b as usize];
                chip8.register.set(a as usize, val);
                proof {
                    assert(step(pre, self, 0u8, chip8@, Ok::<(), Error>(())));
                }
                Ok(())
            },
            Instruction::BinaryAND(a, b) => {
                let val = chip8.register[a as usize] & chip8.register[b as usize];
                chip8.register.set(a as usize, val);
                proof {
                    assert(step(pre, self, 0u8, chip8@, Ok::<(), Error>(())));
                }
                Ok(())
            },
            Instruction::LogicalXOR(a, b) => {
                let val = chip8.register[a as usize] ^ chip8.register[b as usize];
                chip8.register.set(a as usize, val);
                proof {
                    assert(step(pre, self, 0u8, chip8@, Ok::<(), Error>(())));
                }
                Ok(())
            },
            Instruction::AddCarry(a, b) => {
                let sum: u16 = chip8.register[a as usize] as u16
                    + chip8.register[b as usize] as u16;
                chip8.register.set(a as usize, (sum % 256) as u8);
                chip8.register.set(15, if sum >= 256 { 1 } else { 0 });
                proof {
                    lemma_mod256(pre.reg[a as int] + pre.reg[b as int]);
                    assert(step(pre, self, 0u8, chip8@, Ok::<(), Error>(())));
                }
                Ok(())
            },
            Instruction::Subtract(a, b) => {
                let ra = chip8.register[a as usize];
                let rb = chip8.register[b as usize];
                let diff: u8 = if ra >= rb {
                    ra - rb
                } else {
                    (ra as u16 + 256 - rb as u16) as u8
                };
                chip8.register.set(a as usize, diff);
                chip8.register.set(15, if ra >= rb { 1 } else { 0 });
                proof {
                    lemma_mod256(pre.reg[a as int] - pre.reg[b as int]);
                    assert(step(pre, self, 0u8, chip8@, Ok::<(), Error>(())));
                }
                Ok(())
            },
            Instruction::SubtractNegative(a, b) => {
                let ra = chip8.register[a as usize];
                let rb = chip8.register[b as usize];
                let diff: u8 = if rb >= ra {
                    rb - ra
                } else {
                    (rb as u16 + 256 - ra as u16) as u8
                };
                chip8.register.set(a as usize, diff);
                chip8.register.set(15, if rb >= ra { 1 } else { 0 });
                proof {
                    lemma_mod256(pre.reg[b as int] - pre.reg[a as int]);
                    assert(step(pre, self, 0u8, chip8@, Ok::<(), Error>(())));
                }
                Ok(())
            },
            Instruction::ShiftLeft(a, b) => {
                let src = if chip8.options.late_shift {
                    chip8.register[b as usize]
                } else {
                    chip8.register[a as usize]
                };
                let doubled: u16 = src as u16 * 2;
                chip8.register.set(a as usize, (doubled % 256) as u8);
                chip8.register.set(15, if src >= 128 { 1 } else { 0 });
                proof {
                    lemma_mod256(2 * (src as int));
                    assert(step(pre, self, 0u8, chip8@, Ok::<(), Error>(())));
                }
                Ok(())
            },
            Instruction::ShiftRight(a, b) => {
                let src = if chip8.options.late_shift {
                    chip8.register[b as usize]
                } else {
                    chip8.register[a as usize]
                };
                chip8.register.set(a as usize, src / 2);
                chip8.register.set(15, src % 2);
                proof {
                    assert(step(pre, self, 0u8, chip8@, Ok::<(), Error>(())));
                }
                Ok(())
            },
            Instruction::SetIndex(v) => {
                chip8.index_register = v;
                proof {
                    assert(step(pre, self, 0u8, chip8@, Ok::<(), Error>(())));
                }
                Ok(())
            },
            Instruction::JumpWithOffset(v) => {
                let sel: u8 = if chip8.options.late_jump_with_offset {
                    nibble(v, 1)
                } else {
                    0
                };
                let off = chip8.register[sel as usize] as u16;
                chip8.program_counter = v + off;
                proof {
                    lemma_mod65536(v + pre.reg[sel as int]);
                    assert(step(pre, self, 0u8, chip8@, Ok::<(), Error>(())));
                }
                Ok(())
            },
            Instruction::Random(a, mask) => {
                let rb = random_byte();
                chip8.register.set(a as usize, rb & mask);
                proof {
                    assert(step(pre, self, rb, chip8@, Ok::<(), Error>(())));
                }
                Ok(())
            },
            Instruction::Display(rx, ry, n) => {
                let r = execute_display(chip8, rx, ry, n);
                proof {
                    assert(step(pre, self, 0u8, chip8@, r));
                }
                r
            },
            Instruction::SkipIfKeyPressed(a) => {
                let kv = chip8.register[a as usize];
                let sh: u16 = (kv & 15) as u16;
                proof {
                    assert((kv & 15) < 16) by (bit_vector);
                }
                if chip8.keys & (0x8000u16 >> sh) != 0 {
                    chip8.program_counter = chip8.program_counter.wrapping_add(2);
                }
                proof {
                    lemma_mod65536(pre.pc + 2);
                    assert(step(pre, self, 0u8, chip8@, Ok::<(), Error>(())));
                }
                Ok(())
            },
            Instruction::SkipIfKeyNotPressed(a) => {
                let kv = chip8.register[a as usize];
                let sh: u16 = (kv & 15) as u16;
                proof {
                    assert((kv & 15) < 16) by (bit_vector);
                }
                if chip8.keys & (0x8000u16 >> sh) == 0 {
                    chip8.program_counter = chip8.program_counter.wrapping_add(2);
                }
                proof {
                    lemma_mod65536(pre.pc + 2);
                    assert(step(pre, self, 0u8, chip8@, Ok::<(), Error>(())));
                }
                Ok(())
            },
            Instruction::SetToDelay(a) => {
                let d = chip8.delay_timer;
                chip8.register.set(a as usize, d);
                proof {
                    assert(step(pre, self, 0u8, chip8@, Ok::<(), Error>(())));
                }
                Ok(())
            },
            Instruction::SetDelayTimer(a) => {
                chip8.delay_timer = chip8.register[a as usize];
                proof {
                    assert(step(pre, self, 0u8, chip8@, Ok::<(), Error>(())));
                }
                Ok(())
            },
            Instruction::SetSoundTimer(a) => {
                chip8.sound_timer = chip8.register[a as usize];
                proof {
                    assert(step(pre, self, 0u8, chip8@, Ok::<(), Error>(())));
                }
                Ok(())
            },
            Instruction::AddToIndex(a) => {
                let off = chip8.register[a as usize] as u16;
                chip8.index_register = chip8.index_register.wrapping_add(off);
                proof {
                    lemma_mod65536(pre.index + pre.reg[a as int]);
                    assert(step(pre, self, 0u8, chip8@, Ok::<(), Error>(())));
                }
                Ok(())
            },
            Instruction::GetKey(a) => {
                if chip8.keys == 0 {
                    chip8.program_counter = chip8.program_counter.wrapping_sub(2);
                    proof {
                        lemma_mod65536(pre.pc - 2);
                        assert(step(pre, self, 0u8, chip8@, Ok::<(), Error>(())));
                    }
                } else {
                    let k = chip8.get_lowest_key();
                    chip8.register.set(a as usize, k);
                    proof {
                        assert(step(pre, self, 0u8, chip8@, Ok::<(), Error>(())));
                    }
                }
                Ok(())
            },
            Instruction::FontChar(a) => {
                let va = chip8.register[a as usize];
                let v = va & 15;
                proof {
                    assert((va & 15) < 16) by (bit_vector);
                }
                chip8.index_register = 0x50 + 5 * (v as u16);
                proof {
                    assert(step(pre, self, 0u8, chip8@, Ok::<(), Error>(())));
                }
                Ok(())
            },
            Instruction::DecimalConversion(a) => {
                let v = chip8.register[a as usize];
                let base = chip8.index_register as usize;
                chip8.memory.set((base + 2) % 4096, v % 10);
                chip8.memory.set((base + 1) % 4096, (v / 10) % 10);
                chip8.memory.set(base % 4096, (v / 100) % 10);
                proof {
                    assert(step(pre, self, 0u8, chip8@, Ok::<(), Error>(())));
                }
                Ok(())
            },
            Instruction::StoreMemory(cnt) => {
                if cnt > 15 {
                    proof {
                        assert(step(pre, self, 0u8, chip8@, Err::<(), Error>(Error::IllegalSave)));
                    }
                    return Err(Error::IllegalSave);
                }
                let base = chip8.index_register;
                let end = cnt as usize + 1;
                let mut i: usize = 0;
                while i < end
                    invariant
                        i <= end,
                        end == cnt + 1,
                        cnt <= 15,
                        base == pre.index,
                        chip8.wf(),
                        chip8@ == (State { mem: chip8@.mem, ..pre }),
                        chip8@.mem == mem_after_store(pre.mem, pre.reg, base, i as int - 1),
                    decreases end - i,
                {
                    let b = chip8.register[i];
                    chip8.memory.set((base as usize + i) % 4096, b);
                    i += 1;
                }
                if chip8.options.late_store_load {
                    chip8.index_register = chip8.index_register.wrapping_add(cnt as u16 + 1);
                    proof {
                        lemma_mod65536(pre.index + cnt + 1);
                    }
                }
                proof {
                    assert(step(pre, self, 0u8, chip8@, Ok::<(), Error>(())));
                }
                Ok(())
            },
            Instruction::LoadMemory(cnt) => {
                if cnt > 15 {
                    proof {
                        assert(step(pre, self, 0u8, chip8@, Err::<(), Error>(Error::IllegalLoad)));
                    }
                    return Err(Error::IllegalLoad);
                }
                let base = chip8.index_register;
                let end = cnt as usize + 1;
                let mut i: usize = 0;
                while i < end
                    invariant
                        i <= end,
                        end == cnt + 1,
                        cnt <= 15,
                        base == pre.index,
                        chip8.wf(),
                        chip8@ == (State { reg: chip8@.reg, ..pre }),
                        forall|k: int| 0 <= k < i ==> chip8@.reg[k] == pre.mem[addr(base, k)],
                        forall|k: int| i <= k < 16 ==> chip8@.reg[k] == pre.reg[k],
                    decreases end - i,
                {
                    let b = chip8.memory[(base as usize + i) % 4096];
                    chip8.register.set(i, b);
                    i += 1;
                }
                proof {
                    assert(chip8@.reg =~= reg_after_load(pre.mem, pre.reg, base, cnt as int));
                }
                if chip8.options.late_store_load {
                    chip8.index_register = chip8.index_register.wrapping_add(cnt as u16 + 1);
                    proof {
                        lemma_mod65536(pre.index + cnt + 1);
                    }
                }
                proof {
                    assert(step(pre, self, 0u8, chip8@, Ok::<(), Error>(())));
                }
                Ok(())
            },
        }
    }
}

/// The draw instruction: XORs an 8-wide, `n`-high sprite read at the index
/// register onto the screen at the wrapped anchor, clipping or wrapping each
/// pixel per the quirks, and records any collision in the flag register.
fn execute_display(chip8: &mut Chip8, rx: u8, ry: u8, n: u8) -> (r: Result<(), Error>)
    requires
        old(chip8).wf(),
        rx < 16,
        ry < 16,
        n < 16,
    ensures
        final(chip8).wf(),
        step(old(chip8)@, Instruction::Display(rx, ry, n), 0u8, final(chip8)@, r),
{
    let ghost pre = old(chip8)@;
    let vx = chip8.register[rx as usize];
    let vy = chip8.register[ry as usize];
    proof {
        assert((vx & 63) < 64) by (bit_vector);
        assert((vy & 31) < 32) by (bit_vector);
    }
    let x0 = (vx & 63) as usize;
    let y0 = (vy & 31) as usize;
    let nn = n as usize;
    chip8.register.set(15, 0);
    proof {
        assert(chip8@.reg =~= pre.reg.update(15, 0u8));
        assert(draw_inv(pre, chip8@, x0 as int, y0 as int, 0));
    }
    let mut i: usize = 0;
    while i < nn
        invariant
            i <= nn,
            nn == n,
            n < 16,
            x0 == pre.reg[rx as int] & 63,
            y0 == pre.reg[ry as int] & 31,
            x0 < 64,
            y0 < 32,
            pre.wf(),
            chip8.wf(),
            draw_inv(pre, chip8@, x0 as int, y0 as int, 8 * i),
        decreases nn - i,
    {
        let sprite = chip8.memory[(chip8.index_register as usize + i) % 4096];
        proof {
            assert(sprite == pre.mem[addr(pre.index, i as int)]);
        }
        let mut j: usize = 0;
        while j < 8
            invariant
                j <= 8,
                i < nn,
                nn == n,
                n < 16,
                x0 == pre.reg[rx as int] & 63,
                y0 == pre.reg[ry as int] & 31,
                x0 < 64,
                y0 < 32,
                pre.wf(),
                chip8.wf(),
                sprite == pre.mem[addr(pre.index, i as int)],
                draw_inv(pre, chip8@, x0 as int, y0 as int, 8 * i + j),
            decreases 8 - j,
        {
            let ghost k: int = 8 * (i as int) + (j as int);
            let ghost gx0 = x0 as int;
            let ghost gy0 = y0 as int;
            proof {
                lemma_upto_extend(pre, gx0, gy0, i as int, j as int);
            }
            if sprite & (0x80u8 >> (j as u8)) != 0 {
                proof {
                    assert(sprite_bit(pre, i as int, j as int));
                }
                let sx = x0 + j;
                let sy = y0 + i;
                let txo: Option<usize> = if sx < WIDTH {
                    Some(sx)
                } else if chip8.options.horizontal_wrap {
                    Some(sx % WIDTH)
                } else {
                    None
                };
                let tyo: Option<usize> = if sy < HEIGHT {
                    Some(sy)
                } else if chip8.options.vertical_wrap {
                    Some(sy % HEIGHT)
                } else {
                    None
                };
                match (txo, tyo) {
                    (Some(tx), Some(ty)) => {
                        proof {
                            assert(tgt_x(pre, gx0, j as int) == Some(tx as int));
                            assert(tgt_y(pre, gy0, i as int) == Some(ty as int));
                            assert(cell_hits(pre, gx0, gy0, i as int, j as int, tx as int, ty as int));
                            assert(!hit_upto(pre, gx0, gy0, k, tx as int, ty as int)) by {
                                if hit_upto(pre, gx0, gy0, k, tx as int, ty as int) {
                                    let (i2, j2): (int, int) = choose|i2: int, j2: int|
                                        0 <= i2 && 0 <= j2 < 8 && i2 * 8 + j2 < k
                                            && #[trigger] cell_hits(
                                            pre,
                                            gx0,
                                            gy0,
                                            i2,
                                            j2,
                                            tx as int,
                                            ty as int,
                                        );
                                    assert(i2 < 16);
                                    lemma_cell_unique(
                                        pre,
                                        gx0,
                                        gy0,
                                        i2,
                                        j2,
                                        i as int,
                                        j as int,
                                        tx as int,
                                        ty as int,
                                    );
                                }
                            }
                        }
                        let lit = match chip8.get_screen(tx, ty) {
                            Ok(v) => v,
                            Err(_) => {
                                proof {
                                    assert(false);
                                }
                                false
                            },
                        };
                        proof {
                            assert(lit == pix(pre.screen, tx as int, ty as int));
                            assert(cell_collides(pre, gx0, gy0, i as int, j as int) == lit);
                        }
                        let ghost mid = chip8@;
                        if lit {
                            chip8.register.set(15, 1);
                            let _ = chip8.set_screen(tx, ty, false);
                        } else {
                            let _ = chip8.set_screen(tx, ty, true);
                        }
                        proof {
                            assert(chip8@.reg =~= pre.reg.update(
                                15,
                                if coll_upto(pre, gx0, gy0, k + 1) {
                                    1u8
                                } else {
                                    0u8
                                },
                            ));
                            assert forall|x2: int, y2: int|
                                0 <= x2 < 64 && 0 <= y2 < 32 implies pix(chip8@.screen, x2, y2)
                                == (pix(pre.screen, x2, y2) != hit_upto(
                                pre,
                                gx0,
                                gy0,
                                k + 1,
                                x2,
                                y2,
                            )) by {
                                if x2 == tx as int && y2 == ty as int {
                                    assert(hit_upto(pre, gx0, gy0, k + 1, x2, y2));
                                } else {
                                    assert(!cell_hits(pre, gx0, gy0, i as int, j as int, x2, y2));
                                }
                            }
                            assert(draw_inv(pre, chip8@, gx0, gy0, k + 1));
                        }
                    },
                    _ => {
                        proof {
                            assert(tgt_x(pre, gx0, j as int) is None || tgt_y(
                                pre,
                                gy0,
                                i as int,
                            ) is None);
                            assert(forall|x2: int, y2: int|
                                !cell_hits(pre, gx0, gy0, i as int, j as int, x2, y2));
                            assert(!cell_collides(pre, gx0, gy0, i as int, j as int));
                            assert(draw_inv(pre, chip8@, gx0, gy0, k + 1));
                        }
                    },
                }
            } else {
                proof {
                    assert(!sprite_bit(pre, i as int, j as int));
                    assert(forall|x2: int, y2: int|
                        !cell_hits(pre, gx0, gy0, i as int, j as int, x2, y2));
                    assert(!cell_collides(pre, gx0, gy0, i as int, j as int));
                    assert(draw_inv(pre, chip8@, gx0, gy0, k + 1));
                }
            }
            j += 1;
        }
        i += 1;
    }
    proof {
        assert(8 * (nn as int) == 8 * n);
        assert(step(pre, Instruction::Display(rx, ry, n), 0u8, chip8@, Ok::<(), Error>(())));
    }
    Ok(())
}

impl Chip8 {
    /// One tick: fetch the word at the program counter, advance the counter,
    /// decode, and execute; any stage's error is handed back unchanged.
    pub fn tick(&mut self) -> (r: Result<(), Error>)
        requires
            old(self).wf(),
        ensures
            final(self).wf(),
            exists|b: u8| #[trigger] tick_rel(old(self)@, final(self)@, r, b),
    {
        let w = match self.fetch_next() {
            Ok(w) => w,
            Err(e) => {
                proof {
                    assert(tick_rel(old(self)@, self@, Err::<(), Error>(e), 0u8));
                }
                return Err(e);
            },
        };
        proof {
            assert(w == fetch_word(old(self)@));
        }
        let inst = match CodedInstruction(w).fetch() {
            Ok(i) => i,
            Err(e) => {
                proof {
                    assert(tick_rel(old(self)@, self@, Err::<(), Error>(e), 0u8));
                }
                return Err(e);
            },
        };
        let ghost mid = self@;
        let r = inst.execute(self);
        proof {
            let b = choose|b: u8| step(mid, inst, b, self@, r);
            assert(tick_rel(old(self)@, self@, r, b));
        }
        r
    }
}

} // verus!
