//! The mathematical model of the machine: an abstract state, the
//! well-formedness predicate, and spec-level bit and pixel accessors.

use vstd::prelude::*;

verus! {

/// The five quirk toggles covering historically ambiguous instruction
/// behaviors. Chosen at construction; the interpreter never changes them.
#[derive(Clone, Copy, Debug)]
pub struct Options {
    /// Shift instructions first copy the source register into the
    /// destination, then shift in place (so the source value feeds the shift).
    pub late_shift: bool,
    /// Jump-with-offset adds the register selected by the address's high
    /// nibble instead of register 0.
    pub late_jump_with_offset: bool,
    /// Store/load of registers advances the index register by count + 1.
    pub late_store_load: bool,
    /// Sprite pixels past the bottom edge wrap to the top instead of clipping.
    pub vertical_wrap: bool,
    /// Sprite pixels past the right edge wrap to the left instead of clipping.
    pub horizontal_wrap: bool,
}

/// Abstract machine state: every field of the interpreter as a plain
/// mathematical value.
#[verifier::ext_equal]
pub ghost struct State {
    pub mem: Seq<u8>,
    pub pc: u16,
    pub index: u16,
    pub stack: Seq<u16>,
    pub delay: u8,
    pub sound: u8,
    pub reg: Seq<u8>,
    pub screen: Seq<u8>,
    pub opts: Options,
    pub keys: u16,
}

pub const MEMORY_SIZE: usize = 4096;
pub const WIDTH: usize = 64;
pub const HEIGHT: usize = 32;
pub const FONT_START: usize = 0x50;
pub const INSTRUCTION_START: usize = 0x200;

impl State {
    /// The sizes of the fixed-size stores never change.
    pub open spec fn wf(self) -> bool {
        &&& self.mem.len() == 4096
        &&& self.reg.len() == 16
        &&& self.screen.len() == 256
    }
}

/// Bit `k` of a byte, most-significant-bit first (bit 0 is the 128s place).
pub open spec fn byte_bit(b: u8, k: int) -> bool {
    b & (0x80u8 >> (k as u8)) != 0
}

/// Whether key `n` is marked in the key mask; key 0 is the mask's
/// most significant bit.
pub open spec fn key_bit(keys: u16, n: u16) -> bool {
    keys & (0x8000u16 >> n) != 0
}

/// The pixel at column `x`, row `y` of the packed framebuffer: one bit per
/// pixel, 8 bytes per row, most-significant-bit first within a byte.
pub open spec fn pix(screen: Seq<u8>, x: int, y: int) -> bool {
    byte_bit(screen[y * 8 + x / 8], x % 8)
}

/// A 16-bit value reduced modulo 2^16: the result of wrapping address
/// arithmetic.
pub open spec fn w16(x: int) -> u16 {
    (x % 0x10000) as u16
}

/// The memory address `base + off`, wrapped to the 4096-byte address space.
pub open spec fn addr(base: u16, off: int) -> int {
    (base + off) % 4096
}

/// The effective screen coordinate for a write at `c` against limit `lim`:
/// in range it is itself; out of range it wraps when the quirk allows, and
/// otherwise there is no target (the write clips).
pub open spec fn wrapped(c: int, lim: int, wrap: bool) -> Option<int> {
    if c < lim {
        Some(c)
    } else if wrap {
        Some(c % lim)
    } else {
        None
    }
}

/// The 80-byte font table: 16 glyphs of 5 rows each, for digits 0 through F.
pub open spec fn font_seq() -> Seq<u8> {
    seq![
        0xF0u8, 0x90, 0x90, 0x90, 0xF0,
        0x20, 0x60, 0x20, 0x20, 0x70,
        0xF0, 0x10, 0xF0, 0x80, 0xF0,
        0xF0, 0x10, 0xF0, 0x10, 0xF0,
        0x90, 0x90, 0xF0, 0x10, 0x10,
        0xF0, 0x80, 0xF0, 0x10, 0xF0,
        0xF0, 0x80, 0xF0, 0x90, 0xF0,
        0xF0, 0x10, 0x20, 0x40, 0x40,
        0xF0, 0x90, 0xF0, 0x90, 0xF0,
        0xF0, 0x90, 0xF0, 0x10, 0xF0,
        0xF0, 0x90, 0xF0, 0x90, 0x90,
        0xE0, 0x90, 0xE0, 0x90, 0xE0,
        0xF0, 0x80, 0x80, 0x80, 0xF0,
        0xE0, 0x90, 0x90, 0x90, 0xE0,
        0xF0, 0x80, 0xF0, 0x80, 0xF0,
        0xF0, 0x80, 0xF0, 0x80, 0x80,
    ]
}

/// The key index a blocking key-wait hands back: the lowest index whose bit
/// is not marked in a nonzero mask (a historical oddity of this interpreter
/// family, kept as defined behavior), and 0
/// when the mask is zero or has every bit marked.
pub open spec fn lowest_unset_key(keys: u16) -> u8 {
    if keys == 0 {
        0
    } else {
        scan_unset(keys, 0)
    }
}

/// The lowest index at or above `i` whose key bit is clear, or 0 if none is.
pub open spec fn scan_unset(keys: u16, i: int) -> u8
    decreases 16 - i,
{
    if i < 0 || i >= 16 {
        0
    } else if !key_bit(keys, i as u16) {
        i as u8
    } else {
        scan_unset(keys, i + 1)
    }
}

} // verus!
