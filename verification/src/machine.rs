//! The machine state: raw storage with bit and byte accessors, construction,
//! the implicit font load, and the fetch stage.

use vstd::prelude::*;
use crate::state::{
    State, Options, pix, byte_bit, key_bit, w16, font_seq, lowest_unset_key, scan_unset,
    wrapped, WIDTH, HEIGHT, FONT_START, INSTRUCTION_START,
};
use crate::decode::Error;

verus! {

/// All mutable interpreter state: memory, registers, stack, timers, counters,
/// the packed framebuffer, the key mask, and the quirk configuration.
pub struct Chip8 {
    pub memory: Vec<u8>,
    pub program_counter: u16,
    pub index_register: u16,
    pub stack: Vec<u16>,
    pub delay_timer: u8,
    pub sound_timer: u8,
    pub register: Vec<u8>,
    pub screen: Vec<u8>,
    pub options: Options,
    pub keys: u16,
}

impl View for Chip8 {
    type V = State;

    open spec fn view(&self) -> State {
        State {
            mem: self.memory@,
            pc: self.program_counter,
            index: self.index_register,
            stack: self.stack@,
            delay: self.delay_timer,
            sound: self.sound_timer,
            reg: self.register@,
            screen: self.screen@,
            opts: self.options,
            keys: self.keys,
        }
    }
}

/// The quirk configuration a new machine is constructed with.
pub open spec fn default_options() -> Options {
    Options {
        late_shift: true,
        late_jump_with_offset: false,
        late_store_load: true,
        vertical_wrap: false,
        horizontal_wrap: false,
    }
}

/// The state at construction: all storage zeroed, the program counter at the
/// first instruction address.
pub open spec fn initial_state() -> State {
    State {
        mem: Seq::new(4096, |i: int| 0u8),
        pc: 0x200,
        index: 0,
        stack: Seq::empty(),
        delay: 0,
        sound: 0,
        reg: Seq::new(16, |i: int| 0u8),
        screen: Seq::new(256, |i: int| 0u8),
        opts: default_options(),
        keys: 0,
    }
}

/// A byte vector of length `n`, all zero.
fn zero_bytes(n: usize) -> (v: Vec<u8>)
    ensures
        v@ == Seq::new(n as nat, |i: int| 0u8),
{
    let mut v: Vec<u8> = Vec::new();
    let mut i: usize = 0;
    while i < n
        invariant
            i <= n,
            v@.len() == i,
            forall|k: int| 0 <= k < i ==> v@[k] == 0u8,
        decreases n - i,
    {
        v.push(0);
        i += 1;
    }
    proof {
        assert(v@ =~= Seq::new(n as nat, |i: int| 0u8));
    }
    v
}

/// How a single-pixel write relates the new state to the old: the target
/// coordinate wraps or clips per the quirks; in the clipping case the write
/// fails and nothing changes; otherwise exactly that pixel takes the value.
pub open spec fn set_screen_post(
    pre: State,
    post: State,
    x: int,
    y: int,
    value: bool,
    r: Result<(), Error>,
) -> bool {
    match (
        wrapped(x, 64, pre.opts.horizontal_wrap),
        wrapped(y, 32, pre.opts.vertical_wrap),
    ) {
        (Some(ex), Some(ey)) => {
            &&& r == Ok::<(), Error>(())
            &&& post.screen.len() == pre.screen.len()
            &&& forall|x2: int, y2: int|
                0 <= x2 < 64 && 0 <= y2 < 32 ==> pix(post.screen, x2, y2) == (if x2 == ex
                    && y2 == ey {
                    value
                } else {
                    pix(pre.screen, x2, y2)
                })
            &&& post == State { screen: post.screen, ..pre }
        },
        _ => r == Err::<(), Error>(Error::SetScreenOutOfBounds) && post == pre,
    }
}

/// Setting or clearing one bit of a byte leaves every other bit alone.
proof fn lemma_set_bit(b: u8, sh: u8, k: u8)
    requires
        sh < 8,
        k < 8,
    ensures
        byte_bit(b | (0x80u8 >> sh), sh as int),
        !byte_bit(b & !(0x80u8 >> sh), sh as int),
        k != sh ==> byte_bit(b | (0x80u8 >> sh), k as int) == byte_bit(b, k as int),
        k != sh ==> byte_bit(b & !(0x80u8 >> sh), k as int) == byte_bit(b, k as int),
{
    assert(((b | (0x80u8 >> sh)) & (0x80u8 >> sh)) != 0) by (bit_vector)
        requires sh < 8;
    assert(((b & !(0x80u8 >> sh)) & (0x80u8 >> sh)) == 0) by (bit_vector)
        requires sh < 8;
    assert(k != sh ==> ((b | (0x80u8 >> sh)) & (0x80u8 >> k)) == (b & (0x80u8 >> k)))
        by (bit_vector)
        requires sh < 8 && k < 8;
    assert(k != sh ==> ((b & !(0x80u8 >> sh)) & (0x80u8 >> k)) == (b & (0x80u8 >> k)))
        by (bit_vector)
        requires sh < 8 && k < 8;
}

/// Once every key index below `i` is marked, the scan from 0 and the scan
/// from `i` agree.
proof fn lemma_scan_prefix(keys: u16, i: int)
    requires
        0 <= i <= 16,
        forall|k: int| 0 <= k < i ==> #[trigger] key_bit(keys, k as u16),
    ensures
        scan_unset(keys, 0) == scan_unset(keys, i),
    decreases i,
{
    if i > 0 {
        lemma_scan_prefix(keys, i - 1);
        assert(key_bit(keys, (i - 1) as u16));
    }
}

impl Chip8 {
    /// The fixed-size stores hold their constructed sizes.
    pub open spec fn wf(&self) -> bool {
        self@.wf()
    }

    /// A machine with zeroed storage, the program counter at 0x200, and the
    /// default quirk configuration.
    pub fn new() -> (c: Chip8)
        ensures
            c.wf(),
            c@ == initial_state(),
    {
        let c = Chip8 {
            memory: zero_bytes(4096),
            program_counter: 0x200,
            index_register: 0,
            stack: Vec::new(),
            delay_timer: 0,
            sound_timer: 0,
            register: zero_bytes(16),
            screen: zero_bytes(256),
            options: Options {
                late_shift: true,
                late_jump_with_offset: false,
                late_store_load: true,
                vertical_wrap: false,
                horizontal_wrap: false,
            },
            keys: 0,
        };
        proof {
            assert(c@ =~= initial_state());
        }
        c
    }

    /// Copies the 80-byte font table to its fixed offset; every other memory
    /// byte is untouched.
    pub fn load_font(&mut self)
        requires
            old(self).wf(),
        ensures
            final(self).wf(),
            final(self)@ == (State { mem: final(self)@.mem, ..old(self)@ }),
            forall|a: int|
                0 <= a < 4096 ==> final(self)@.mem[a] == (if 0x50 <= a < 0xA0 {
                    font_seq()[a - 0x50]
                } else {
                    old(self)@.mem[a]
                }),
    {
        let font: Vec<u8> = font_table();
        let mut i: usize = 0;
        while i < 80
            invariant
                i <= 80,
                font@ == font_seq(),
                self.wf(),
                self@ == (State { mem: self@.mem, ..old(self)@ }),
                forall|a: int|
                    0 <= a < 4096 ==> self@.mem[a] == (if 0x50 <= a < 0x50 + i {
                        font_seq()[a - 0x50]
                    } else {
                        old(self)@.mem[a]
                    }),
            decreases 80 - i,
        {
            let b = font[i];
            self.memory.set(i + FONT_START, b);
            i += 1;
        }
    }

    /// Copies the program bytes to the instruction region starting at 0x200;
    /// every other memory byte is untouched.
    pub fn load_program(&mut self, prog: &Vec<u8>)
        requires
            old(self).wf(),
            prog@.len() <= 4096 - 0x200,
        ensures
            final(self).wf(),
            final(self)@ == (State { mem: final(self)@.mem, ..old(self)@ }),
            forall|a: int|
                0 <= a < 4096 ==> final(self)@.mem[a] == (if 0x200 <= a < 0x200 + prog@.len() {
                    prog@[a - 0x200]
                } else {
                    old(self)@.mem[a]
                }),
    {
        let mut i: usize = 0;
        while i < prog.len()
            invariant
                i <= prog@.len(),
                prog@.len() <= 4096 - 0x200,
                self.wf(),
                self@ == (State { mem: self@.mem, ..old(self)@ }),
                forall|a: int|
                    0 <= a < 4096 ==> self@.mem[a] == (if 0x200 <= a < 0x200 + i {
                        prog@[a - 0x200]
                    } else {
                        old(self)@.mem[a]
                    }),
            decreases prog@.len() - i,
        {
            let b = prog[i];
            self.memory.set(i + INSTRUCTION_START, b);
            i += 1;
        }
    }

    /// Replaces the 16-key mask for the next tick window.
    pub fn write_key_mask(&mut self, bits: u16)
        ensures
            final(self)@ == (State { keys: bits, ..old(self)@ }),
    {
        self.keys = bits;
    }

    /// Decrements each timer that is above zero; both clamp at zero.
    pub fn decrement_timers(&mut self)
        ensures
            final(self)@ == (State {
                delay: if old(self)@.delay > 0 { (old(self)@.delay - 1) as u8 } else { 0u8 },
                sound: if old(self)@.sound > 0 { (old(self)@.sound - 1) as u8 } else { 0u8 },
                ..old(self)@
            }),
    {
        if self.delay_timer > 0 {
            self.delay_timer = self.delay_timer - 1;
        }
        if self.sound_timer > 0 {
            self.sound_timer = self.sound_timer - 1;
        }
    }

    /// Reads one pixel; coordinates are strictly bounds-checked (wrap applies
    /// only to writes during sprite drawing).
    pub fn get_screen(&self, x: usize, y: usize) -> (r: Result<bool, Error>)
        requires
            self.wf(),
        ensures
            x < 64 && y < 32 ==> r == Ok::<bool, Error>(pix(self@.screen, x as int, y as int)),
            !(x < 64 && y < 32) ==> r == Err::<bool, Error>(Error::GetScreenOutOfBounds),
    {
        if x >= WIDTH {
            return Err(Error::GetScreenOutOfBounds);
        }
        if y >= HEIGHT {
            return Err(Error::GetScreenOutOfBounds);
        }
        let sh = (x % 8) as u8;
        Ok(self.screen[y * 8 + x / 8] & (0x80u8 >> sh) != 0)
    }

    /// Writes one pixel, wrapping each out-of-range coordinate when its quirk
    /// allows and failing (with no change) when it does not.
    pub fn set_screen(&mut self, x: usize, y: usize, value: bool) -> (r: Result<(), Error>)
        requires
            old(self).wf(),
        ensures
            final(self).wf(),
            set_screen_post(old(self)@, final(self)@, x as int, y as int, value, r),
    {
        let mut ex = x;
        let mut ey = y;
        if ex >= WIDTH {
            if self.options.horizontal_wrap {
                ex = ex % WIDTH;
            } else {
                return Err(Error::SetScreenOutOfBounds);
            }
        }
        if ey >= HEIGHT {
            if self.options.vertical_wrap {
                ey = ey % HEIGHT;
            } else {
                return Err(Error::SetScreenOutOfBounds);
            }
        }
        let idx = ey * 8 + ex / 8;
        let sh = (ex % 8) as u8;
        let b = self.screen[idx];
        let nb = if value {
            b | (0x80u8 >> sh)
        } else {
            b & !(0x80u8 >> sh)
        };
        self.screen.set(idx, nb);
        proof {
            let pres = old(self)@.screen;
            let posts = self@.screen;
            assert forall|x2: int, y2: int| 0 <= x2 < 64 && 0 <= y2 < 32 implies pix(
                posts,
                x2,
                y2,
            ) == (if x2 == ex as int && y2 == ey as int {
                value
            } else {
                pix(pres, x2, y2)
            }) by {
                let k = (x2 % 8) as u8;
                lemma_set_bit(b, sh, k);
                assert(x2 == 8 * (x2 / 8) + x2 % 8);
                assert(ex as int == 8 * (ex as int / 8) + ex as int % 8);
                if y2 * 8 + x2 / 8 == idx as int {
                    assert(0 <= x2 / 8 < 8);
                    assert(y2 == ey as int && x2 / 8 == ex as int / 8);
                } else {
                    assert(posts[y2 * 8 + x2 / 8] == pres[y2 * 8 + x2 / 8]);
                }
            }
        }
        Ok(())
    }

    /// The key index the blocking key-wait hands back: the lowest index whose
    /// bit is *not* marked when the mask is nonzero (a historical inversion
    /// kept as defined behavior), and 0 for an empty or full mask.
    pub fn get_lowest_key(&mut self) -> (r: u8)
        ensures
            final(self)@ == old(self)@,
            r == lowest_unset_key(old(self)@.keys),
    {
        if self.keys != 0 {
            let mut i: u8 = 0;
            while i < 16
                invariant
                    i <= 16,
                    self@ == old(self)@,
                    self.keys != 0,
                    forall|k: int| 0 <= k < i ==> #[trigger] key_bit(self.keys, k as u16),
                decreases 16 - i,
            {
                if self.keys & (0x8000u16 >> (i as u16)) == 0 {
                    proof {
                        lemma_scan_prefix(self.keys, i as int);
                    }
                    return i;
                }
                i += 1;
            }
            proof {
                lemma_scan_prefix(self.keys, 16);
            }
            0
        } else {
            0
        }
    }

    /// The fetch stage: reads the big-endian word at the program counter and
    /// advances the counter by 2 before anything is decoded, so jumps are not
    /// perturbed and a skip is one more advance. Fails with `EmptyFetch`
    /// when the advanced counter would have read past the 4096-byte space.
    pub fn fetch_next(&mut self) -> (r: Result<u16, Error>)
        requires
            old(self).wf(),
        ensures
            final(self).wf(),
            final(self)@ == (State { pc: w16(old(self)@.pc + 2), ..old(self)@ }),
            old(self)@.pc > 4094 ==> r == Err::<u16, Error>(Error::EmptyFetch),
            old(self)@.pc <= 4094 ==> r == Ok::<u16, Error>(
                (old(self)@.mem[old(self)@.pc as int] * 256
                    + old(self)@.mem[old(self)@.pc as int + 1]) as u16,
            ),
    {
        let pc = self.program_counter;
        self.program_counter = pc.wrapping_add(2);
        if pc > 4094 {
            return Err(Error::EmptyFetch);
        }
        let hi = self.memory[pc as usize];
        let lo = self.memory[pc as usize + 1];
        Ok((hi as u16) * 256 + (lo as u16))
    }
}

/// The 16 five-byte font glyphs for the digits 0 through F.
fn font_table() -> (v: Vec<u8>)
    ensures
        v@ == font_seq(),
{
    let v: Vec<u8> = vec![
        0xF0, 0x90, 0x90, 0x90, 0xF0,
        0x20, 0x60, 0x20, 0x20, 0x70,
        0xF0, 0x10, 0xF0, 0x80, 0xF0,
        0xF0, 0x10, 0xF0, 0x10, 0xF0,
        0x90, 0x90, 0xF0, 0x10, 0x10,
        0xF0, 0x80, 0xF0, 0x10, 0xF0,
        0xF0, 0x80, 0xF0, 0x90, 0xF0,
        0xF0, 0x10, 0x20, 0x40, 0x40,
        0xF0, 0x90, 0xF0, 0x90, 0xF0,
        0xF0, 0x90, 0xF0, 0x10, 0xF0,
        0xF0, 0x90, 0xF0, 0x90, 0x90,
        0xE0, 0x90, 0xE0, 0x90, 0xE0,
        0xF0, 0x80, 0x80, 0x80, 0xF0,
        0xE0, 0x90, 0x90, 0x90, 0xE0,
        0xF0, 0x80, 0xF0, 0x80, 0xF0,
        0xF0, 0x80, 0xF0, 0x80, 0x80,
    ];
    proof {
        assert(v@ =~= font_seq());
    }
    v
}

} // verus!
