use chip8::machine::Chip8;
use chip8::decode::{CodedInstruction, Error, Instruction, RegOrVal};

fn fresh() -> Chip8 {
    let mut emu = Chip8::new();
    emu.load_font();
    emu
}

fn load(emu: &mut Chip8, bytes: &[u8]) {
    let prog: Vec<u8> = bytes.to_vec();
    emu.load_program(&prog);
}

#[test]
fn pc_starts_at_0x200_and_advances_by_2() {
    let mut emu = fresh();
    assert_eq!(emu.program_counter, 0x200);
    load(&mut emu, &[0x60, 0x05]);
    assert!(emu.tick().is_ok());
    assert_eq!(emu.program_counter, 0x202);
    assert_eq!(emu.register[0], 5);
}

#[test]
fn scenario_clear_set_add() {
    let mut emu = fresh();
    load(&mut emu, &[0x00, 0xE0, 0x60, 0x05, 0x70, 0x03]);
    assert!(emu.tick().is_ok());
    assert!(emu.tick().is_ok());
    assert_eq!(emu.register[0], 5);
    assert!(emu.tick().is_ok());
    assert_eq!(emu.register[0], 8);
    for x in 0..64 {
        for y in 0..32 {
            assert_eq!(emu.get_screen(x, y), Ok(false));
        }
    }
}

#[test]
fn add_with_carry_sets_vf_on_overflow() {
    let mut emu = fresh();
    emu.register[0] = 200;
    emu.register[1] = 100;
    assert!(Instruction::AddCarry(0, 1).execute(&mut emu).is_ok());
    assert_eq!(emu.register[0], 44); // (200 + 100) mod 256
    assert_eq!(emu.register[15], 1);
}

#[test]
fn add_with_carry_clears_vf_without_overflow() {
    let mut emu = fresh();
    emu.register[0] = 20;
    emu.register[1] = 30;
    emu.register[15] = 1;
    assert!(Instruction::AddCarry(0, 1).execute(&mut emu).is_ok());
    assert_eq!(emu.register[0], 50);
    assert_eq!(emu.register[15], 0);
}

#[test]
fn subtract_sets_vf_when_no_borrow() {
    let mut emu = fresh();
    emu.register[2] = 50;
    emu.register[3] = 20;
    assert!(Instruction::Subtract(2, 3).execute(&mut emu).is_ok());
    assert_eq!(emu.register[2], 30);
    assert_eq!(emu.register[15], 1);
}

#[test]
fn subtract_clears_vf_on_borrow() {
    let mut emu = fresh();
    emu.register[2] = 20;
    emu.register[3] = 50;
    assert!(Instruction::Subtract(2, 3).execute(&mut emu).is_ok());
    assert_eq!(emu.register[2], 226); // (20 - 50) mod 256
    assert_eq!(emu.register[15], 0);
}

#[test]
fn subtract_negative_reverses_operands() {
    let mut emu = fresh();
    emu.register[2] = 20;
    emu.register[3] = 50;
    assert!(Instruction::SubtractNegative(2, 3).execute(&mut emu).is_ok());
    assert_eq!(emu.register[2], 30); // 50 - 20
    assert_eq!(emu.register[15], 1);
}

#[test]
fn shift_left_flag_is_pre_shift_msb_late_quirk() {
    let mut emu = fresh();
    emu.options.late_shift = true;
    emu.register[1] = 0x81; // source: MSB set
    emu.register[0] = 0x00;
    assert!(Instruction::ShiftLeft(0, 1).execute(&mut emu).is_ok());
    assert_eq!(emu.register[0], 0x02); // 0x81 << 1 (mod 256)
    assert_eq!(emu.register[15], 1);
}

#[test]
fn shift_left_flag_is_pre_shift_msb_classic() {
    let mut emu = fresh();
    emu.options.late_shift = false;
    emu.register[0] = 0x41; // destination itself feeds the shift
    emu.register[1] = 0x80;
    assert!(Instruction::ShiftLeft(0, 1).execute(&mut emu).is_ok());
    assert_eq!(emu.register[0], 0x82);
    assert_eq!(emu.register[15], 0);
}

#[test]
fn shift_right_flag_is_pre_shift_lsb() {
    let mut emu = fresh();
    emu.options.late_shift = true;
    emu.register[1] = 0x05;
    assert!(Instruction::ShiftRight(0, 1).execute(&mut emu).is_ok());
    assert_eq!(emu.register[0], 0x02);
    assert_eq!(emu.register[15], 1);

    emu.options.late_shift = false;
    emu.register[3] = 0x04;
    assert!(Instruction::ShiftRight(3, 1).execute(&mut emu).is_ok());
    assert_eq!(emu.register[3], 0x02);
    assert_eq!(emu.register[15], 0);
}

#[test]
fn draw_twice_clears_and_collides() {
    let mut emu = fresh();
    emu.index_register = 0x300;
    emu.memory[0x300] = 0xFF;
    emu.memory[0x301] = 0x81;
    emu.register[0] = 10; // x anchor
    emu.register[1] = 7;  // y anchor
    assert!(Instruction::Display(0, 1, 2).execute(&mut emu).is_ok());
    assert_eq!(emu.register[15], 0);
    assert_eq!(emu.get_screen(10, 7), Ok(true));
    assert_eq!(emu.get_screen(17, 8), Ok(true));
    assert_eq!(emu.get_screen(12, 8), Ok(false));
    assert!(Instruction::Display(0, 1, 2).execute(&mut emu).is_ok());
    assert_eq!(emu.register[15], 1);
    for x in 0..64 {
        for y in 0..32 {
            assert_eq!(emu.get_screen(x, y), Ok(false));
        }
    }
}

#[test]
fn draw_anchor_wraps_modulo_screen() {
    let mut emu = fresh();
    emu.index_register = 0x300;
    emu.memory[0x300] = 0x80;
    emu.register[0] = 64 + 3; // wraps to x = 3
    emu.register[1] = 32 + 2; // wraps to y = 2
    assert!(Instruction::Display(0, 1, 1).execute(&mut emu).is_ok());
    assert_eq!(emu.get_screen(3, 2), Ok(true));
}

#[test]
fn draw_clips_at_right_edge_without_quirk_and_sets_no_vf() {
    let mut emu = fresh();
    emu.options.horizontal_wrap = false;
    emu.index_register = 0x300;
    emu.memory[0x300] = 0xFF;
    emu.register[0] = 60;
    emu.register[1] = 0;
    assert!(Instruction::Display(0, 1, 1).execute(&mut emu).is_ok());
    assert_eq!(emu.register[15], 0); // clipped pixels record nothing
    for x in 60..64 {
        assert_eq!(emu.get_screen(x, 0), Ok(true));
    }
    for x in 0..5 {
        assert_eq!(emu.get_screen(x, 0), Ok(false)); // nothing wrapped around
    }
}

#[test]
fn draw_wraps_at_right_edge_with_quirk() {
    let mut emu = fresh();
    emu.options.horizontal_wrap = true;
    emu.index_register = 0x300;
    emu.memory[0x300] = 0xFF;
    emu.register[0] = 60;
    emu.register[1] = 0;
    assert!(Instruction::Display(0, 1, 1).execute(&mut emu).is_ok());
    for x in 60..64 {
        assert_eq!(emu.get_screen(x, 0), Ok(true));
    }
    for x in 0..4 {
        assert_eq!(emu.get_screen(x, 0), Ok(true)); // wrapped to the left edge
    }
}

#[test]
fn store_then_load_round_trip_restores_registers() {
    for n in 0..16u8 {
        let mut emu = fresh();
        for k in 0..16 {
            emu.register[k] = (k as u8) * 7 + 3;
        }
        let saved: Vec<u8> = emu.register.clone();
        emu.index_register = 0x400;
        assert!(Instruction::StoreMemory(n).execute(&mut emu).is_ok());
        emu.index_register = 0x400; // the quirk advanced it; load from the same index
        assert!(Instruction::LoadMemory(n).execute(&mut emu).is_ok());
        assert_eq!(emu.register, saved);
    }
}

#[test]
fn store_load_advance_index_with_quirk() {
    let mut emu = fresh();
    emu.options.late_store_load = true;
    emu.index_register = 0x400;
    assert!(Instruction::StoreMemory(4).execute(&mut emu).is_ok());
    assert_eq!(emu.index_register, 0x405);
    emu.options.late_store_load = false;
    emu.index_register = 0x400;
    assert!(Instruction::LoadMemory(4).execute(&mut emu).is_ok());
    assert_eq!(emu.index_register, 0x400);
}

#[test]
fn key_wait_holds_pc_when_no_key() {
    let mut emu = fresh();
    load(&mut emu, &[0xF0, 0x0A]);
    emu.write_key_mask(0);
    assert!(emu.tick().is_ok());
    assert_eq!(emu.program_counter, 0x200);
    assert!(emu.tick().is_ok());
    assert_eq!(emu.program_counter, 0x200);
}

#[test]
fn key_wait_stores_lowest_unmarked_key() {
    let mut emu = fresh();
    load(&mut emu, &[0xF5, 0x0A]);
    emu.write_key_mask(0x8000); // key 0's bit is marked
    assert!(emu.tick().is_ok());
    assert_eq!(emu.program_counter, 0x202);
    // the scan hands back the lowest index whose bit is NOT marked
    assert_eq!(emu.register[5], 1);
}

#[test]
fn get_lowest_key_scan() {
    let mut emu = fresh();
    emu.write_key_mask(0);
    assert_eq!(emu.get_lowest_key(), 0);
    emu.write_key_mask(0x8000);
    assert_eq!(emu.get_lowest_key(), 1);
    emu.write_key_mask(0xC000);
    assert_eq!(emu.get_lowest_key(), 2);
    emu.write_key_mask(0xFFFF);
    assert_eq!(emu.get_lowest_key(), 0);
}

#[test]
fn set_screen_wraps_horizontally_with_quirk() {
    let mut emu = fresh();
    emu.options.horizontal_wrap = true;
    assert_eq!(emu.set_screen(66, 5, true), Ok(()));
    assert_eq!(emu.get_screen(2, 5), Ok(true));

    let mut emu2 = fresh();
    emu2.options.horizontal_wrap = true;
    assert_eq!(emu2.set_screen(2, 5, true), Ok(()));
    for x in 0..64 {
        for y in 0..32 {
            assert_eq!(emu.get_screen(x, y), emu2.get_screen(x, y));
        }
    }
}

#[test]
fn set_screen_is_a_rejected_no_op_without_wrap() {
    let mut emu = fresh();
    emu.options.horizontal_wrap = false;
    assert_eq!(emu.set_screen(66, 5, true), Err(Error::SetScreenOutOfBounds));
    for x in 0..64 {
        for y in 0..32 {
            assert_eq!(emu.get_screen(x, y), Ok(false));
        }
    }
}

#[test]
fn set_screen_wraps_vertically_with_quirk() {
    let mut emu = fresh();
    emu.options.vertical_wrap = true;
    assert_eq!(emu.set_screen(1, 33, true), Ok(()));
    assert_eq!(emu.get_screen(1, 1), Ok(true));
    emu.options.vertical_wrap = false;
    assert_eq!(emu.set_screen(1, 33, true), Err(Error::SetScreenOutOfBounds));
}

#[test]
fn get_screen_is_strictly_bounds_checked() {
    let emu = fresh();
    assert_eq!(emu.get_screen(64, 0), Err(Error::GetScreenOutOfBounds));
    assert_eq!(emu.get_screen(0, 32), Err(Error::GetScreenOutOfBounds));
    assert_eq!(emu.get_screen(63, 31), Ok(false));
}

#[test]
fn unknown_instruction_carries_the_word() {
    let mut emu = fresh();
    load(&mut emu, &[0xFF, 0xFF]);
    assert_eq!(
        emu.tick(),
        Err(Error::UnknownInstruction(CodedInstruction(0xFFFF)))
    );
    assert_eq!(emu.program_counter, 0x202); // the fetch advance still happened
}

#[test]
fn empty_fetch_at_end_of_memory() {
    let mut emu = fresh();
    emu.program_counter = 4095;
    assert_eq!(emu.tick(), Err(Error::EmptyFetch));
    let mut emu2 = fresh();
    emu2.program_counter = 4094;
    assert_eq!(
        emu2.tick(),
        Err(Error::UnknownInstruction(CodedInstruction(0)))
    );
}

#[test]
fn subroutine_return_with_empty_stack_fails() {
    let mut emu = fresh();
    load(&mut emu, &[0x00, 0xEE]);
    assert_eq!(emu.tick(), Err(Error::EmptySubroutineReturn));
}

#[test]
fn subroutine_call_and_return() {
    let mut emu = fresh();
    load(&mut emu, &[0x23, 0x00]); // call 0x300
    emu.memory[0x300] = 0x00;
    emu.memory[0x301] = 0xEE; // return
    assert!(emu.tick().is_ok());
    assert_eq!(emu.program_counter, 0x300);
    assert_eq!(emu.stack, vec![0x202]);
    assert!(emu.tick().is_ok());
    assert_eq!(emu.program_counter, 0x202);
    assert!(emu.stack.is_empty());
}

#[test]
fn illegal_save_and_load_counts() {
    let mut emu = fresh();
    assert_eq!(
        Instruction::StoreMemory(16).execute(&mut emu),
        Err(Error::IllegalSave)
    );
    assert_eq!(
        Instruction::LoadMemory(200).execute(&mut emu),
        Err(Error::IllegalLoad)
    );
}

#[test]
fn decode_covers_the_table() {
    assert_eq!(
        CodedInstruction(0x00E0).fetch(),
        Ok(Instruction::ClearScreen)
    );
    assert_eq!(
        CodedInstruction(0x00EE).fetch(),
        Ok(Instruction::SubroutineReturn)
    );
    assert_eq!(CodedInstruction(0x1ABC).fetch(), Ok(Instruction::Jump(0xABC)));
    assert_eq!(
        CodedInstruction(0x2ABC).fetch(),
        Ok(Instruction::Subroutine(0xABC))
    );
    assert_eq!(
        CodedInstruction(0x3A42).fetch(),
        Ok(Instruction::SkipIfEqual(0xA, RegOrVal::Value(0x42)))
    );
    assert_eq!(
        CodedInstruction(0x4A42).fetch(),
        Ok(Instruction::SkipIfNotEqual(0xA, RegOrVal::Value(0x42)))
    );
    assert_eq!(
        CodedInstruction(0x5AB0).fetch(),
        Ok(Instruction::SkipIfEqual(0xA, RegOrVal::Register(0xB)))
    );
    assert_eq!(
        CodedInstruction(0x6A42).fetch(),
        Ok(Instruction::SetReg(0xA, RegOrVal::Value(0x42)))
    );
    assert_eq!(CodedInstruction(0x7A42).fetch(), Ok(Instruction::Add(0xA, 0x42)));
    assert_eq!(
        CodedInstruction(0x8AB0).fetch(),
        Ok(Instruction::SetReg(0xA, RegOrVal::Register(0xB)))
    );
    assert_eq!(
        CodedInstruction(0x8AB1).fetch(),
        Ok(Instruction::BinaryOR(0xA, 0xB))
    );
    assert_eq!(
        CodedInstruction(0x8AB2).fetch(),
        Ok(Instruction::BinaryAND(0xA, 0xB))
    );
    assert_eq!(
        CodedInstruction(0x8AB3).fetch(),
        Ok(Instruction::LogicalXOR(0xA, 0xB))
    );
    assert_eq!(
        CodedInstruction(0x8AB4).fetch(),
        Ok(Instruction::AddCarry(0xA, 0xB))
    );
    assert_eq!(
        CodedInstruction(0x8AB5).fetch(),
        Ok(Instruction::Subtract(0xA, 0xB))
    );
    assert_eq!(
        CodedInstruction(0x8AB6).fetch(),
        Ok(Instruction::ShiftRight(0xA, 0xB))
    );
    assert_eq!(
        CodedInstruction(0x8AB7).fetch(),
        Ok(Instruction::SubtractNegative(0xA, 0xB))
    );
    assert_eq!(
        CodedInstruction(0x8ABE).fetch(),
        Ok(Instruction::ShiftLeft(0xA, 0xB))
    );
    assert_eq!(
        CodedInstruction(0x9AB0).fetch(),
        Ok(Instruction::SkipIfNotEqual(0xA, RegOrVal::Register(0xB)))
    );
    assert_eq!(CodedInstruction(0xAABC).fetch(), Ok(Instruction::SetIndex(0xABC)));
    assert_eq!(
        CodedInstruction(0xBABC).fetch(),
        Ok(Instruction::JumpWithOffset(0xABC))
    );
    assert_eq!(
        CodedInstruction(0xCA42).fetch(),
        Ok(Instruction::Random(0xA, 0x42))
    );
    assert_eq!(
        CodedInstruction(0xDAB5).fetch(),
        Ok(Instruction::Display(0xA, 0xB, 5))
    );
    assert_eq!(
        CodedInstruction(0xEA9E).fetch(),
        Ok(Instruction::SkipIfKeyPressed(0xA))
    );
    assert_eq!(
        CodedInstruction(0xEAA1).fetch(),
        Ok(Instruction::SkipIfKeyNotPressed(0xA))
    );
    assert_eq!(
        CodedInstruction(0xFA07).fetch(),
        Ok(Instruction::SetToDelay(0xA))
    );
    assert_eq!(
        CodedInstruction(0xFA15).fetch(),
        Ok(Instruction::SetDelayTimer(0xA))
    );
    assert_eq!(
        CodedInstruction(0xFA18).fetch(),
        Ok(Instruction::SetSoundTimer(0xA))
    );
    assert_eq!(
        CodedInstruction(0xFA1E).fetch(),
        Ok(Instruction::AddToIndex(0xA))
    );
    assert_eq!(CodedInstruction(0xFA0A).fetch(), Ok(Instruction::GetKey(0xA)));
    assert_eq!(CodedInstruction(0xFA29).fetch(), Ok(Instruction::FontChar(0xA)));
    assert_eq!(
        CodedInstruction(0xFA33).fetch(),
        Ok(Instruction::DecimalConversion(0xA))
    );
    assert_eq!(
        CodedInstruction(0xFA55).fetch(),
        Ok(Instruction::StoreMemory(0xA))
    );
    assert_eq!(
        CodedInstruction(0xFA65).fetch(),
        Ok(Instruction::LoadMemory(0xA))
    );
    assert_eq!(
        CodedInstruction(0x0123).fetch(),
        Err(Error::UnknownInstruction(CodedInstruction(0x0123)))
    );
    assert_eq!(
        CodedInstruction(0x8AB8).fetch(),
        Err(Error::UnknownInstruction(CodedInstruction(0x8AB8)))
    );
    assert_eq!(
        CodedInstruction(0xE000).fetch(),
        Err(Error::UnknownInstruction(CodedInstruction(0xE000)))
    );
    assert_eq!(
        CodedInstruction(0xF001).fetch(),
        Err(Error::UnknownInstruction(CodedInstruction(0xF001)))
    );
}

#[test]
fn fetch_next_reads_big_endian_and_advances_first() {
    let mut emu = fresh();
    emu.memory[0x200] = 0x12;
    emu.memory[0x201] = 0x34;
    assert_eq!(emu.fetch_next(), Ok(0x1234));
    assert_eq!(emu.program_counter, 0x202);
    emu.program_counter = 4095;
    assert_eq!(emu.fetch_next(), Err(Error::EmptyFetch));
    assert_eq!(emu.program_counter, 4097);
}

#[test]
fn font_table_is_loaded_at_0x50() {
    let emu = fresh();
    assert_eq!(emu.memory[0x50], 0xF0); // glyph 0, first row
    assert_eq!(emu.memory[0x54], 0xF0);
    assert_eq!(emu.memory[0x55], 0x20); // glyph 1
    assert_eq!(emu.memory[0x9F], 0x80); // glyph F, last row
    assert_eq!(emu.memory[0x4F], 0x00);
    assert_eq!(emu.memory[0xA0], 0x00);
}

#[test]
fn font_char_addresses_low_nibble_times_5() {
    let mut emu = fresh();
    emu.register[3] = 0x0A;
    assert!(Instruction::FontChar(3).execute(&mut emu).is_ok());
    assert_eq!(emu.index_register, 0x50 + 5 * 0xA);
    emu.register[3] = 0x1A; // only the low nibble is meaningful
    assert!(Instruction::FontChar(3).execute(&mut emu).is_ok());
    assert_eq!(emu.index_register, 0x50 + 5 * 0xA);
}

#[test]
fn decimal_conversion_writes_three_digits() {
    let mut emu = fresh();
    emu.register[6] = 159;
    emu.index_register = 0x300;
    assert!(Instruction::DecimalConversion(6).execute(&mut emu).is_ok());
    assert_eq!(emu.memory[0x300], 1);
    assert_eq!(emu.memory[0x301], 5);
    assert_eq!(emu.memory[0x302], 9);
    emu.register[6] = 7;
    assert!(Instruction::DecimalConversion(6).execute(&mut emu).is_ok());
    assert_eq!(emu.memory[0x300], 0);
    assert_eq!(emu.memory[0x301], 0);
    assert_eq!(emu.memory[0x302], 7);
}

#[test]
fn random_is_masked() {
    let mut emu = fresh();
    emu.register[0] = 0xAA;
    assert!(Instruction::Random(0, 0x00).execute(&mut emu).is_ok());
    assert_eq!(emu.register[0], 0);
    for _ in 0..32 {
        assert!(Instruction::Random(0, 0x0F).execute(&mut emu).is_ok());
        assert!(emu.register[0] <= 0x0F);
    }
}

#[test]
fn timers_decrement_and_clamp() {
    let mut emu = fresh();
    emu.delay_timer = 2;
    emu.sound_timer = 0;
    emu.decrement_timers();
    assert_eq!(emu.delay_timer, 1);
    assert_eq!(emu.sound_timer, 0);
    emu.decrement_timers();
    emu.decrement_timers();
    assert_eq!(emu.delay_timer, 0);
}

#[test]
fn timer_instructions_move_values() {
    let mut emu = fresh();
    emu.register[4] = 77;
    assert!(Instruction::SetDelayTimer(4).execute(&mut emu).is_ok());
    assert_eq!(emu.delay_timer, 77);
    assert!(Instruction::SetSoundTimer(4).execute(&mut emu).is_ok());
    assert_eq!(emu.sound_timer, 77);
    assert!(Instruction::SetToDelay(5).execute(&mut emu).is_ok());
    assert_eq!(emu.register[5], 77);
}

#[test]
fn jump_with_offset_quirk_selects_register() {
    let mut emu = fresh();
    emu.options.late_jump_with_offset = false;
    emu.register[0] = 4;
    assert!(Instruction::JumpWithOffset(0x200).execute(&mut emu).is_ok());
    assert_eq!(emu.program_counter, 0x204);

    emu.options.late_jump_with_offset = true;
    emu.register[2] = 3;
    assert!(Instruction::JumpWithOffset(0x210).execute(&mut emu).is_ok());
    assert_eq!(emu.program_counter, 0x213);
}

#[test]
fn add_immediate_wraps_without_flag() {
    let mut emu = fresh();
    emu.register[0] = 0xFE;
    emu.register[15] = 0;
    assert!(Instruction::Add(0, 0x03).execute(&mut emu).is_ok());
    assert_eq!(emu.register[0], 0x01);
    assert_eq!(emu.register[15], 0); // no carry flag from plain add
}

#[test]
fn bitwise_instructions() {
    let mut emu = fresh();
    emu.register[0] = 0b1100;
    emu.register[1] = 0b1010;
    assert!(Instruction::BinaryOR(0, 1).execute(&mut emu).is_ok());
    assert_eq!(emu.register[0], 0b1110);
    emu.register[0] = 0b1100;
    assert!(Instruction::BinaryAND(0, 1).execute(&mut emu).is_ok());
    assert_eq!(emu.register[0], 0b1000);
    emu.register[0] = 0b1100;
    assert!(Instruction::LogicalXOR(0, 1).execute(&mut emu).is_ok());
    assert_eq!(emu.register[0], 0b0110);
}

#[test]
fn skips_advance_pc_by_two_more() {
    let mut emu = fresh();
    load(&mut emu, &[0x30, 0x00, 0x00, 0x00, 0x40, 0x00]);
    assert!(emu.tick().is_ok()); // V0 == 0, skip taken
    assert_eq!(emu.program_counter, 0x204);
    assert!(emu.tick().is_ok()); // skip-if-not-equal not taken
    assert_eq!(emu.program_counter, 0x206);

    let mut emu2 = fresh();
    emu2.register[1] = 9;
    emu2.register[2] = 9;
    load(&mut emu2, &[0x51, 0x20, 0x00, 0x00, 0x91, 0x20]);
    assert!(emu2.tick().is_ok());
    assert_eq!(emu2.program_counter, 0x204);
    assert!(emu2.tick().is_ok());
    assert_eq!(emu2.program_counter, 0x206);
}

#[test]
fn key_skips_test_the_named_key() {
    let mut emu = fresh();
    emu.register[0] = 0; // key 0
    emu.write_key_mask(0x8000); // key 0 marked
    load(&mut emu, &[0xE0, 0x9E, 0x00, 0x00, 0xE0, 0xA1]);
    assert!(emu.tick().is_ok()); // pressed: skip
    assert_eq!(emu.program_counter, 0x204);
    assert!(emu.tick().is_ok()); // not-pressed: no skip
    assert_eq!(emu.program_counter, 0x206);
}

#[test]
fn add_to_index_wraps_at_16_bits() {
    let mut emu = fresh();
    emu.index_register = 0xFFFF;
    emu.register[0] = 2;
    assert!(Instruction::AddToIndex(0).execute(&mut emu).is_ok());
    assert_eq!(emu.index_register, 1);
    assert_eq!(emu.register[15], 0); // no flag from index overflow
}

#[test]
fn set_index_and_set_register_forms() {
    let mut emu = fresh();
    load(&mut emu, &[0xA1, 0x23, 0x6B, 0x44, 0x8A, 0xB0]);
    assert!(emu.tick().is_ok());
    assert_eq!(emu.index_register, 0x123);
    assert!(emu.tick().is_ok());
    assert_eq!(emu.register[0xB], 0x44);
    assert!(emu.tick().is_ok());
    assert_eq!(emu.register[0xA], 0x44);
}

#[test]
fn jump_sets_pc_exactly() {
    let mut emu = fresh();
    load(&mut emu, &[0x1A, 0xBC]);
    assert!(emu.tick().is_ok());
    assert_eq!(emu.program_counter, 0xABC);
}

#[test]
fn clear_screen_unlights_everything() {
    let mut emu = fresh();
    assert_eq!(emu.set_screen(5, 6, true), Ok(()));
    assert_eq!(emu.set_screen(63, 31, true), Ok(()));
    assert!(Instruction::ClearScreen.execute(&mut emu).is_ok());
    assert_eq!(emu.get_screen(5, 6), Ok(false));
    assert_eq!(emu.get_screen(63, 31), Ok(false));
}

#[test]
fn draw_wraps_at_bottom_edge_with_quirk() {
    let mut emu = fresh();
    emu.options.vertical_wrap = true;
    emu.index_register = 0x300;
    emu.memory[0x300] = 0x80;
    emu.memory[0x301] = 0x80;
    emu.register[0] = 0;
    emu.register[1] = 31;
    assert!(Instruction::Display(0, 1, 2).execute(&mut emu).is_ok());
    assert_eq!(emu.get_screen(0, 31), Ok(true));
    assert_eq!(emu.get_screen(0, 0), Ok(true)); // second row wrapped to the top

    let mut emu2 = fresh();
    emu2.options.vertical_wrap = false;
    emu2.index_register = 0x300;
    emu2.memory[0x300] = 0x80;
    emu2.memory[0x301] = 0x80;
    emu2.register[0] = 0;
    emu2.register[1] = 31;
    assert!(Instruction::Display(0, 1, 2).execute(&mut emu2).is_ok());
    assert_eq!(emu2.get_screen(0, 31), Ok(true));
    assert_eq!(emu2.get_screen(0, 0), Ok(false)); // second row clipped
}
