//! The decode stage: the raw 16-bit instruction word, the instruction table,
//! the interpreter's error kinds, and the total decoding function.

use vstd::prelude::*;

verus! {

pub type RegisterIndex = u8;
pub type U12 = u16;

/// An operand that is either an immediate value or a register index.
#[derive(Debug, Clone, Copy, PartialEq, Eq)]
pub enum RegOrVal {
    Value(U12),
    Register(RegisterIndex),
}

/// The raw 16-bit big-endian instruction word, before decoding.
#[derive(Debug, Clone, Copy, PartialEq, Eq)]
pub struct CodedInstruction(pub u16);

/// Everything a tick can fail with.
#[derive(Debug, Clone, Copy, PartialEq, Eq)]
pub enum Error {
    /// No instruction variant matches the word; carries the raw word.
    UnknownInstruction(CodedInstruction),
    /// The program counter ran past the end of the address space.
    EmptyFetch,
    /// A subroutine return found the call stack empty.
    EmptySubroutineReturn,
    /// A pixel read out of the 64 x 32 screen bounds.
    GetScreenOutOfBounds,
    /// A pixel write out of bounds with the relevant wrap quirk off.
    SetScreenOutOfBounds,
    /// A register store with a count above 15.
    IllegalSave,
    /// A register load with a count above 15.
    IllegalLoad,
}

/// The decoded instruction set: 31 variants covering the 36 table entries
/// (the skip and set families share variants through `RegOrVal`).
#[derive(Debug, Clone, Copy, PartialEq, Eq)]
pub enum Instruction {
    ClearScreen,
    Jump(U12),
    Subroutine(U12),
    SubroutineReturn,
    SkipIfEqual(RegisterIndex, RegOrVal),
    SkipIfNotEqual(RegisterIndex, RegOrVal),
    SetReg(RegisterIndex, RegOrVal),
    Add(RegisterIndex, u8),
    BinaryOR(RegisterIndex, RegisterIndex),
    BinaryAND(RegisterIndex, RegisterIndex),
    LogicalXOR(RegisterIndex, RegisterIndex),
    AddCarry(RegisterIndex, RegisterIndex),
    Subtract(RegisterIndex, RegisterIndex),
    SubtractNegative(RegisterIndex, RegisterIndex),
    ShiftLeft(RegisterIndex, RegisterIndex),
    ShiftRight(RegisterIndex, RegisterIndex),
    SetIndex(U12),
    JumpWithOffset(U12),
    Random(RegisterIndex, u8),
    Display(RegisterIndex, RegisterIndex, u8),
    SkipIfKeyPressed(RegisterIndex),
    SkipIfKeyNotPressed(RegisterIndex),
    SetToDelay(RegisterIndex),
    SetDelayTimer(RegisterIndex),
    SetSoundTimer(RegisterIndex),
    AddToIndex(RegisterIndex),
    GetKey(RegisterIndex),
    FontChar(RegisterIndex),
    DecimalConversion(RegisterIndex),
    StoreMemory(RegisterIndex),
    LoadMemory(RegisterIndex),
}

/// Nibble `n` of a word, numbered 0 (most significant) to 3 (least).
pub open spec fn spec_nibble(w: u16, n: int) -> u8 {
    if n == 0 {
        ((w & 0xF000) >> 12) as u8
    } else if n == 1 {
        ((w & 0x0F00) >> 8) as u8
    } else if n == 2 {
        ((w & 0x00F0) >> 4) as u8
    } else {
        (w & 0x000F) as u8
    }
}

/// Extracts nibble `n` of `input`, most significant first.
pub fn nibble(input: u16, n: u8) -> (r: RegisterIndex)
    requires
        n < 4,
    ensures
        r == spec_nibble(input, n as int),
        r < 16,
{
    proof {
        assert(((input & 0xF000) >> 12) < 16) by (bit_vector);
        assert(((input & 0x0F00) >> 8) < 16) by (bit_vector);
        assert(((input & 0x00F0) >> 4) < 16) by (bit_vector);
        assert((input & 0x000F) < 16) by (bit_vector);
    }
    if n == 0 {
        ((input & 0xF000) >> 12) as u8
    } else if n == 1 {
        ((input & 0x0F00) >> 8) as u8
    } else if n == 2 {
        ((input & 0x00F0) >> 4) as u8
    } else {
        (input & 0x000F) as u8
    }
}

/// Operand well-formedness: register indices name one of the 16 registers,
/// immediates fit their encoded field.
pub open spec fn rv_wf(rv: RegOrVal) -> bool {
    match rv {
        RegOrVal::Value(v) => v <= 0xFF,
        RegOrVal::Register(r) => r < 16,
    }
}

/// Instruction well-formedness: every operand fits the field it was decoded
/// from. The store/load count is deliberately unconstrained: its range check
/// is the execute stage's own defensive duty.
pub open spec fn inst_wf(i: Instruction) -> bool {
    match i {
        Instruction::ClearScreen => true,
        Instruction::SubroutineReturn => true,
        Instruction::Jump(v) => v <= 0xFFF,
        Instruction::Subroutine(v) => v <= 0xFFF,
        Instruction::SetIndex(v) => v <= 0xFFF,
        Instruction::JumpWithOffset(v) => v <= 0xFFF,
        Instruction::SkipIfEqual(a, rv) => a < 16 && rv_wf(rv),
        Instruction::SkipIfNotEqual(a, rv) => a < 16 && rv_wf(rv),
        Instruction::SetReg(a, rv) => a < 16 && rv_wf(rv),
        Instruction::Add(a, _) => a < 16,
        Instruction::BinaryOR(a, b) => a < 16 && b < 16,
        Instruction::BinaryAND(a, b) => a < 16 && b < 16,
        Instruction::LogicalXOR(a, b) => a < 16 && b < 16,
        Instruction::AddCarry(a, b) => a < 16 && b < 16,
        Instruction::Subtract(a, b) => a < 16 && b < 16,
        Instruction::SubtractNegative(a, b) => a < 16 && b < 16,
        Instruction::ShiftLeft(a, b) => a < 16 && b < 16,
        Instruction::ShiftRight(a, b) => a < 16 && b < 16,
        Instruction::Random(a, _) => a < 16,
        Instruction::Display(x, y, n) => x < 16 && y < 16 && n < 16,
        Instruction::SkipIfKeyPressed(r) => r < 16,
        Instruction::SkipIfKeyNotPressed(r) => r < 16,
        Instruction::SetToDelay(r) => r < 16,
        Instruction::SetDelayTimer(r) => r < 16,
        Instruction::SetSoundTimer(r) => r < 16,
        Instruction::AddToIndex(r) => r < 16,
        Instruction::GetKey(r) => r < 16,
        Instruction::FontChar(r) => r < 16,
        Instruction::DecimalConversion(r) => r < 16,
        Instruction::StoreMemory(_) => true,
        Instruction::LoadMemory(_) => true,
    }
}

/// The instruction table as a total function on words: exactly one variant
/// per defined nibble pattern, `UnknownInstruction` for the rest.
pub open spec fn spec_decode(w: u16) -> Result<Instruction, Error> {
    let a = spec_nibble(w, 0);
    let b = spec_nibble(w, 1);
    let c = spec_nibble(w, 2);
    let d = spec_nibble(w, 3);
    if a == 0x0 && b == 0x0 && c == 0xE && d == 0x0 {
        Ok(Instruction::ClearScreen)
    } else if a == 0x0 && b == 0x0 && c == 0xE && d == 0xE {
        Ok(Instruction::SubroutineReturn)
    } else if a == 0x1 {
        Ok(Instruction::Jump(w & 0x0FFF))
    } else if a == 0x2 {
        Ok(Instruction::Subroutine(w & 0x0FFF))
    } else if a == 0x3 {
        Ok(Instruction::SkipIfEqual(b, RegOrVal::Value(w & 0x00FF)))
    } else if a == 0x4 {
        Ok(Instruction::SkipIfNotEqual(b, RegOrVal::Value(w & 0x00FF)))
    } else if a == 0x5 {
        Ok(Instruction::SkipIfEqual(b, RegOrVal::Register(c)))
    } else if a == 0x6 {
        Ok(Instruction::SetReg(b, RegOrVal::Value(w & 0x00FF)))
    } else if a == 0x7 {
        Ok(Instruction::Add(b, (w & 0x00FF) as u8))
    } else if a == 0x8 && d == 0x0 {
        Ok(Instruction::SetReg(b, RegOrVal::Register(c)))
    } else if a == 0x8 && d == 0x1 {
        Ok(Instruction::BinaryOR(b, c))
    } else if a == 0x8 && d == 0x2 {
        Ok(Instruction::BinaryAND(b, c))
    } else if a == 0x8 && d == 0x3 {
        Ok(Instruction::LogicalXOR(b, c))
    } else if a == 0x8 && d == 0x4 {
        Ok(Instruction::AddCarry(b, c))
    } else if a == 0x8 && d == 0x5 {
        Ok(Instruction::Subtract(b, c))
    } else if a == 0x8 && d == 0x6 {
        Ok(Instruction::ShiftRight(b, c))
    } else if a == 0x8 && d == 0x7 {
        Ok(Instruction::SubtractNegative(b, c))
    } else if a == 0x8 && d == 0xE {
        Ok(Instruction::ShiftLeft(b, c))
    } else if a == 0x9 && d == 0x0 {
        Ok(Instruction::SkipIfNotEqual(b, RegOrVal::Register(c)))
    } else if a == 0xA {
        Ok(Instruction::SetIndex(w & 0x0FFF))
    } else if a == 0xB {
        Ok(Instruction::JumpWithOffset(w & 0x0FFF))
    } else if a == 0xC {
        Ok(Instruction::Random(b, (w & 0x00FF) as u8))
    } else if a == 0xD {
        Ok(Instruction::Display(b, c, d))
    } else if a == 0xE && c == 0x9 && d == 0xE {
        Ok(Instruction::SkipIfKeyPressed(b))
    } else if a == 0xE && c == 0xA && d == 0x1 {
        Ok(Instruction::SkipIfKeyNotPressed(b))
    } else if a == 0xF && c == 0x0 && d == 0x7 {
        Ok(Instruction::SetToDelay(b))
    } else if a == 0xF && c == 0x1 && d == 0x5 {
        Ok(Instruction::SetDelayTimer(b))
    } else if a == 0xF && c == 0x1 && d == 0x8 {
        Ok(Instruction::SetSoundTimer(b))
    } else if a == 0xF && c == 0x1 && d == 0xE {
        Ok(Instruction::AddToIndex(b))
    } else if a == 0xF && c == 0x0 && d == 0xA {
        Ok(Instruction::GetKey(b))
    } else if a == 0xF && c == 0x2 && d == 0x9 {
        Ok(Instruction::FontChar(b))
    } else if a == 0xF && c == 0x3 && d == 0x3 {
        Ok(Instruction::DecimalConversion(b))
    } else if a == 0xF && c == 0x5 && d == 0x5 {
        Ok(Instruction::StoreMemory(b))
    } else if a == 0xF && c == 0x6 && d == 0x5 {
        Ok(Instruction::LoadMemory(b))
    } else {
        Err(Error::UnknownInstruction(CodedInstruction(w)))
    }
}

impl CodedInstruction {
    /// Maps the coded word to its instruction variant by its four nibbles;
    /// any undefined pattern is reported with the offending word.
    pub fn fetch(self) -> (r: Result<Instruction, Error>)
        ensures
            r == spec_decode(self.0),
            r matches Ok(i) ==> inst_wf(i),
    {
        let a = nibble(self.0, 0);
        let b = nibble(self.0, 1);
        let c = nibble(self.0, 2);
        let d = nibble(self.0, 3);
        let w = self.0;
        proof {
            assert((w & 0x0FFF) <= 0xFFF) by (bit_vector);
            assert((w & 0x00FF) <= 0xFF) by (bit_vector);
        }
        match (a, b, c, d) {
            (0x0, 0x0, 0xE, 0x0) => Ok(Instruction::ClearScreen),
            (0x0, 0x0, 0xE, 0xE) => Ok(Instruction::SubroutineReturn),
            (0x1, _, _, _) => Ok(Instruction::Jump(self.0 & 0x0FFF)),
            (0x2, _, _, _) => Ok(Instruction::Subroutine(self.0 & 0x0FFF)),
            (0x3, _, _, _) => Ok(Instruction::SkipIfEqual(b, RegOrVal::Value(self.0 & 0x00FF))),
            (0x4, _, _, _) => Ok(Instruction::SkipIfNotEqual(b, RegOrVal::Value(self.0 & 0x00FF))),
            (0x5, _, _, _) => Ok(Instruction::SkipIfEqual(b, RegOrVal::Register(c))),
            (0x6, _, _, _) => Ok(Instruction::SetReg(b, RegOrVal::Value(self.0 & 0x00FF))),
            (0x7, _, _, _) => Ok(Instruction::Add(b, (self.0 & 0x00FF) as u8)),
            (0x8, _, _, 0x0) => Ok(Instruction::SetReg(b, RegOrVal::Register(c))),
            (0x8, _, _, 0x1) => Ok(Instruction::BinaryOR(b, c)),
            (0x8, _, _, 0x2) => Ok(Instruction::BinaryAND(b, c)),
            (0x8, _, _, 0x3) => Ok(Instruction::LogicalXOR(b, c)),
            (0x8, _, _, 0x4) => Ok(Instruction::AddCarry(b, c)),
            (0x8, _, _, 0x5) => Ok(Instruction::Subtract(b, c)),
            (0x8, _, _, 0x6) => Ok(Instruction::ShiftRight(b, c)),
            (0x8, _, _, 0x7) => Ok(Instruction::SubtractNegative(b, c)),
            (0x8, _, _, 0xE) => Ok(Instruction::ShiftLeft(b, c)),
            (0x9, _, _, 0x0) => Ok(Instruction::SkipIfNotEqual(b, RegOrVal::Register(c))),
            (0xA, _, _, _) => Ok(Instruction::SetIndex(self.0 & 0x0FFF)),
            (0xB, _, _, _) => Ok(Instruction::JumpWithOffset(self.0 & 0x0FFF)),
            (0xC, _, _, _) => Ok(Instruction::Random(b, (self.0 & 0x00FF) as u8)),
            (0xD, _, _, _) => Ok(Instruction::Display(b, c, d)),
            (0xE, _, 0x9, 0xE) => Ok(Instruction::SkipIfKeyPressed(b)),
            (0xE, _, 0xA, 0x1) => Ok(Instruction::SkipIfKeyNotPressed(b)),
            (0xF, _, 0x0, 0x7) => Ok(Instruction::SetToDelay(b)),
            (0xF, _, 0x1, 0x5) => Ok(Instruction::SetDelayTimer(b)),
            (0xF, _, 0x1, 0x8) => Ok(Instruction::SetSoundTimer(b)),
            (0xF, _, 0x1, 0xE) => Ok(Instruction::AddToIndex(b)),
            (0xF, _, 0x0, 0xA) => Ok(Instruction::GetKey(b)),
            (0xF, _, 0x2, 0x9) => Ok(Instruction::FontChar(b)),
            (0xF, _, 0x3, 0x3) => Ok(Instruction::DecimalConversion(b)),
            (0xF, _, 0x5, 0x5) => Ok(Instruction::StoreMemory(b)),
            (0xF, _, 0x6, 0x5) => Ok(Instruction::LoadMemory(b)),
            _ => Err(Error::UnknownInstruction(self)),
        }
    }
}

} // verus!
