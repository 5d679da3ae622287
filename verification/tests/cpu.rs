use chip8::color::Color;
use chip8::cpu::{read_word, Cpu, Fault};
use chip8::display::Display;
use chip8::instruction::{decode, Instruction};
use chip8::keyboard::Keyboard;
use chip8::ram::Ram;

struct Rig {
    cpu: Cpu,
    ram: Ram,
    keyboard: Keyboard,
    display: Display,
}

fn rig() -> Rig {
    Rig { cpu: Cpu::new(), ram: Ram::new(), keyboard: Keyboard::new(), display: Display::new(Color::White) }
}

fn run_opcode(rig: &mut Rig, opcode: u16) -> Result<(), Fault> {
    rig.cpu.process_opcode(opcode, 0, &mut rig.ram, &mut rig.keyboard, &mut rig.display)
}

fn run_opcode_with(rig: &mut Rig, opcode: u16, random: u8) -> Result<(), Fault> {
    rig.cpu.process_opcode(opcode, random, &mut rig.ram, &mut rig.keyboard, &mut rig.display)
}

fn cycle(rig: &mut Rig) -> Result<(), Fault> {
    rig.cpu.execute_cycle(&mut rig.ram, &mut rig.keyboard, &mut rig.display)
}

fn poke_word(rig: &mut Rig, address: u16, word: u16) {
    rig.ram.write_byte(address, (word >> 8) as u8);
    rig.ram.write_byte(address + 1, (word & 0xFF) as u8);
}

#[test]
fn new_cpu_is_in_reset_state() {
    let cpu = Cpu::new();
    assert_eq!(cpu.i, 0);
    assert_eq!(cpu.pc, 0x200);
    assert_eq!(cpu.v, [0u8; 16]);
    assert_eq!(cpu.stack, [0u16; 16]);
    assert_eq!(cpu.sp, 0);
    assert_eq!(cpu.dt, 0);
    assert_eq!(cpu.st, 0);
    assert_eq!(cpu.awaiting_key, None);
}

#[test]
fn reset_restores_the_reset_state() {
    let mut r = rig();
    run_opcode(&mut r, 0x6A42).unwrap();
    run_opcode(&mut r, 0xA123).unwrap();
    run_opcode(&mut r, 0x2400).unwrap();
    run_opcode(&mut r, 0xFA15).unwrap();
    run_opcode(&mut r, 0xFA18).unwrap();
    assert_eq!(r.cpu.stack[0], 0x200);
    r.cpu.awaiting_key = Some(3);
    r.cpu.reset();
    assert_eq!(r.cpu.i, 0);
    assert_eq!(r.cpu.pc, 0x200);
    assert_eq!(r.cpu.v, [0u8; 16]);
    assert_eq!(r.cpu.stack, [0u16; 16]);
    assert_eq!(r.cpu.sp, 0);
    assert_eq!(r.cpu.dt, 0);
    assert_eq!(r.cpu.st, 0);
    assert_eq!(r.cpu.awaiting_key, None);
}

#[test]
fn read_word_is_big_endian() {
    let mut memory = [0u8; 4096];
    memory[0x200] = 0x12;
    memory[0x201] = 0x34;
    memory[4094] = 0xAB;
    memory[4095] = 0xCD;
    assert_eq!(read_word(memory, 0x200), 0x1234);
    assert_eq!(read_word(memory, 4094), 0xABCD);
    assert_eq!(read_word(memory, 0x201), 0x3400);
}

#[test]
fn decode_extracts_the_fields() {
    assert_eq!(decode(0x00E0), Some(Instruction::ClearScreen));
    assert_eq!(decode(0x00EE), Some(Instruction::Return));
    assert_eq!(decode(0x1ABC), Some(Instruction::Jump { address: 0xABC }));
    assert_eq!(decode(0x2FFF), Some(Instruction::Call { address: 0xFFF }));
    assert_eq!(decode(0x3A7F), Some(Instruction::SkipIfEqualByte { x: 0xA, byte: 0x7F }));
    assert_eq!(decode(0x4B01), Some(Instruction::SkipIfNotEqualByte { x: 0xB, byte: 0x01 }));
    assert_eq!(decode(0x5120), Some(Instruction::SkipIfEqual { x: 1, y: 2 }));
    assert_eq!(decode(0x6C99), Some(Instruction::LoadByte { x: 0xC, byte: 0x99 }));
    assert_eq!(decode(0x7D10), Some(Instruction::AddByte { x: 0xD, byte: 0x10 }));
    assert_eq!(decode(0x8120), Some(Instruction::Move { x: 1, y: 2 }));
    assert_eq!(decode(0x8121), Some(Instruction::Or { x: 1, y: 2 }));
    assert_eq!(decode(0x8122), Some(Instruction::And { x: 1, y: 2 }));
    assert_eq!(decode(0x8123), Some(Instruction::Xor { x: 1, y: 2 }));
    assert_eq!(decode(0x8124), Some(Instruction::Add { x: 1, y: 2 }));
    assert_eq!(decode(0x8125), Some(Instruction::Sub { x: 1, y: 2 }));
    assert_eq!(decode(0x8126), Some(Instruction::ShiftRight { x: 1 }));
    assert_eq!(decode(0x8127), Some(Instruction::SubReversed { x: 1, y: 2 }));
    assert_eq!(decode(0x812E), Some(Instruction::ShiftLeft { x: 1 }));
    assert_eq!(decode(0x9340), Some(Instruction::SkipIfNotEqual { x: 3, y: 4 }));
    assert_eq!(decode(0xA123), Some(Instruction::LoadIndex { address: 0x123 }));
    assert_eq!(decode(0xB456), Some(Instruction::JumpOffset { address: 0x456 }));
    assert_eq!(decode(0xC5F0), Some(Instruction::Random { x: 5, byte: 0xF0 }));
    assert_eq!(decode(0xD125), Some(Instruction::Draw { x: 1, y: 2, rows: 5 }));
    assert_eq!(decode(0xE79E), Some(Instruction::SkipIfKey { x: 7 }));
    assert_eq!(decode(0xE7A1), Some(Instruction::SkipIfNotKey { x: 7 }));
    assert_eq!(decode(0xF807), Some(Instruction::LoadDelay { x: 8 }));
    assert_eq!(decode(0xF80A), Some(Instruction::WaitKey { x: 8 }));
    assert_eq!(decode(0xF815), Some(Instruction::SetDelay { x: 8 }));
    assert_eq!(decode(0xF818), Some(Instruction::SetSound { x: 8 }));
    assert_eq!(decode(0xF81E), Some(Instruction::AddIndex { x: 8 }));
    assert_eq!(decode(0xF829), Some(Instruction::LoadGlyph { x: 8 }));
    assert_eq!(decode(0xF833), Some(Instruction::StoreBcd { x: 8 }));
    assert_eq!(decode(0xF855), Some(Instruction::StoreRegisters { x: 8 }));
    assert_eq!(decode(0xF865), Some(Instruction::LoadRegisters { x: 8 }));
}

#[test]
fn decode_rejects_opcodes_outside_the_catalog() {
    for opcode in [0x0000u16, 0x0123, 0x00E1, 0x00EF, 0x5121, 0x512F, 0x8128, 0x812D, 0x812F, 0x9341, 0xE79F, 0xE700, 0xF800, 0xF8FF, 0xF856] {
        assert_eq!(decode(opcode), None, "{:04x}", opcode);
    }
}

#[test]
fn decode_goes_by_the_fixed_nibbles_for_every_register() {
    for x in 0..16u16 {
        for y in 0..16u16 {
            assert_eq!(decode(0x8004 | x << 8 | y << 4), Some(Instruction::Add { x: x as u8, y: y as u8 }));
            assert_eq!(decode(0x800E | x << 8 | y << 4), Some(Instruction::ShiftLeft { x: x as u8 }));
        }
        assert_eq!(decode(0xF033 | x << 8), Some(Instruction::StoreBcd { x: x as u8 }));
        assert_eq!(decode(0xE09E | x << 8), Some(Instruction::SkipIfKey { x: x as u8 }));
    }
}

#[test]
fn unknown_opcode_is_a_fault_that_keeps_the_opcode() {
    let mut r = rig();
    run_opcode(&mut r, 0x6105).unwrap();
    assert_eq!(run_opcode(&mut r, 0x0123), Err(Fault::UnknownOpcode(0x0123)));
    assert_eq!(r.cpu.v[1], 5);
    assert_eq!(r.cpu.pc, 0x200);
}

#[test]
fn load_byte_sets_the_register() {
    let mut r = rig();
    run_opcode(&mut r, 0x6A42).unwrap();
    assert_eq!(r.cpu.v[0xA], 0x42);
    assert_eq!(r.cpu.pc, 0x200);
}

#[test]
fn add_byte_wraps_and_sets_no_flag() {
    let mut r = rig();
    run_opcode(&mut r, 0x6F07).unwrap();
    run_opcode(&mut r, 0x63F0).unwrap();
    run_opcode(&mut r, 0x7320).unwrap();
    assert_eq!(r.cpu.v[3], 0x10);
    assert_eq!(r.cpu.v[0xF], 0x07);
}

#[test]
fn add_byte_is_the_sum_modulo_256_for_every_pair() {
    for a in 0..=255u16 {
        for b in [0u16, 1, 2, 127, 128, 200, 254, 255] {
            let mut r = rig();
            run_opcode(&mut r, 0x6500 | a).unwrap();
            run_opcode(&mut r, 0x7500 | b).unwrap();
            assert_eq!(r.cpu.v[5] as u16, (a + b) % 256);
            assert_eq!(r.cpu.v[0xF], 0);
        }
    }
}

#[test]
fn add_registers_sets_the_carry_for_every_pair() {
    for a in 0..=255u16 {
        for b in 0..=255u16 {
            let mut r = rig();
            r.cpu.v[1] = a as u8;
            r.cpu.v[2] = b as u8;
            run_opcode(&mut r, 0x8124).unwrap();
            assert_eq!(r.cpu.v[1] as u16, (a + b) % 256);
            assert_eq!(r.cpu.v[0xF], if a + b > 255 { 1 } else { 0 });
            assert_eq!(r.cpu.v[2], b as u8);
        }
    }
}

#[test]
fn add_into_the_flag_register_leaves_the_carry() {
    let mut r = rig();
    r.cpu.v[0xF] = 200;
    r.cpu.v[1] = 100;
    run_opcode(&mut r, 0x8F14).unwrap();
    assert_eq!(r.cpu.v[0xF], 1);
    let mut r = rig();
    r.cpu.v[0xF] = 20;
    r.cpu.v[1] = 10;
    run_opcode(&mut r, 0x8F14).unwrap();
    assert_eq!(r.cpu.v[0xF], 0);
}

#[test]
fn sub_flags_a_greater_minuend_and_wraps() {
    let mut r = rig();
    r.cpu.v[1] = 10;
    r.cpu.v[2] = 3;
    run_opcode(&mut r, 0x8125).unwrap();
    assert_eq!(r.cpu.v[1], 7);
    assert_eq!(r.cpu.v[0xF], 1);
    r.cpu.v[1] = 3;
    r.cpu.v[2] = 10;
    run_opcode(&mut r, 0x8125).unwrap();
    assert_eq!(r.cpu.v[1], 249);
    assert_eq!(r.cpu.v[0xF], 0);
}

#[test]
fn sub_of_equal_operands_clears_the_flag() {
    let mut r = rig();
    r.cpu.v[1] = 5;
    r.cpu.v[2] = 5;
    r.cpu.v[0xF] = 1;
    run_opcode(&mut r, 0x8125).unwrap();
    assert_eq!(r.cpu.v[1], 0);
    assert_eq!(r.cpu.v[0xF], 0);
    r.cpu.v[1] = 5;
    r.cpu.v[0xF] = 1;
    run_opcode(&mut r, 0x8127).unwrap();
    assert_eq!(r.cpu.v[1], 0);
    assert_eq!(r.cpu.v[0xF], 0);
}

#[test]
fn sub_and_subn_hold_for_every_pair() {
    for a in 0..=255i32 {
        for b in 0..=255i32 {
            let mut r = rig();
            r.cpu.v[1] = a as u8;
            r.cpu.v[2] = b as u8;
            run_opcode(&mut r, 0x8125).unwrap();
            assert_eq!(r.cpu.v[1] as i32, (a - b).rem_euclid(256));
            assert_eq!(r.cpu.v[0xF], if a > b { 1 } else { 0 });
            let mut r = rig();
            r.cpu.v[1] = a as u8;
            r.cpu.v[2] = b as u8;
            run_opcode(&mut r, 0x8127).unwrap();
            assert_eq!(r.cpu.v[1] as i32, (b - a).rem_euclid(256));
            assert_eq!(r.cpu.v[0xF], if b > a { 1 } else { 0 });
        }
    }
}

#[test]
fn sub_into_the_flag_register_leaves_the_difference() {
    let mut r = rig();
    r.cpu.v[0xF] = 9;
    r.cpu.v[1] = 4;
    run_opcode(&mut r, 0x8F15).unwrap();
    assert_eq!(r.cpu.v[0xF], 5);
}

#[test]
fn move_and_bitwise_operations() {
    let mut r = rig();
    r.cpu.v[1] = 0b1100_1010;
    r.cpu.v[2] = 0b1010_0110;
    run_opcode(&mut r, 0x8320).unwrap();
    assert_eq!(r.cpu.v[3], 0b1010_0110);
    run_opcode(&mut r, 0x8121).unwrap();
    assert_eq!(r.cpu.v[1], 0b1110_1110);
    r.cpu.v[1] = 0b1100_1010;
    run_opcode(&mut r, 0x8122).unwrap();
    assert_eq!(r.cpu.v[1], 0b1000_0010);
    r.cpu.v[1] = 0b1100_1010;
    run_opcode(&mut r, 0x8123).unwrap();
    assert_eq!(r.cpu.v[1], 0b0110_1100);
    assert_eq!(r.cpu.v[0xF], 0);
}

#[test]
fn shift_right_moves_the_low_bit_into_the_flag() {
    let mut r = rig();
    r.cpu.v[4] = 0b1000_0101;
    run_opcode(&mut r, 0x8406).unwrap();
    assert_eq!(r.cpu.v[4], 0b0100_0010);
    assert_eq!(r.cpu.v[0xF], 1);
    run_opcode(&mut r, 0x8406).unwrap();
    assert_eq!(r.cpu.v[4], 0b0010_0001);
    assert_eq!(r.cpu.v[0xF], 0);
}

#[test]
fn shift_left_moves_the_high_bit_into_the_flag() {
    let mut r = rig();
    r.cpu.v[4] = 0b1100_0101;
    run_opcode(&mut r, 0x840E).unwrap();
    assert_eq!(r.cpu.v[4], 0b1000_1010);
    assert_eq!(r.cpu.v[0xF], 1);
    r.cpu.v[4] = 0b0100_0101;
    run_opcode(&mut r, 0x840E).unwrap();
    assert_eq!(r.cpu.v[4], 0b1000_1010);
    assert_eq!(r.cpu.v[0xF], 0);
}

#[test]
fn shifts_of_the_flag_register_shift_the_flag() {
    let mut r = rig();
    r.cpu.v[0xF] = 0xFF;
    run_opcode(&mut r, 0x8F06).unwrap();
    assert_eq!(r.cpu.v[0xF], 0);
    r.cpu.v[0xF] = 0xFF;
    run_opcode(&mut r, 0x8F0E).unwrap();
    assert_eq!(r.cpu.v[0xF], 2);
    r.cpu.v[0xF] = 0x7F;
    run_opcode(&mut r, 0x8F0E).unwrap();
    assert_eq!(r.cpu.v[0xF], 0);
}

#[test]
fn skips_compare_with_a_byte() {
    let mut r = rig();
    r.cpu.v[3] = 0x44;
    run_opcode(&mut r, 0x3344).unwrap();
    assert_eq!(r.cpu.pc, 0x202);
    run_opcode(&mut r, 0x3345).unwrap();
    assert_eq!(r.cpu.pc, 0x202);
    run_opcode(&mut r, 0x4345).unwrap();
    assert_eq!(r.cpu.pc, 0x204);
    run_opcode(&mut r, 0x4344).unwrap();
    assert_eq!(r.cpu.pc, 0x204);
}

#[test]
fn skips_compare_two_registers() {
    let mut r = rig();
    r.cpu.v[3] = 0x44;
    r.cpu.v[4] = 0x44;
    r.cpu.v[5] = 0x45;
    run_opcode(&mut r, 0x5340).unwrap();
    assert_eq!(r.cpu.pc, 0x202);
    run_opcode(&mut r, 0x5350).unwrap();
    assert_eq!(r.cpu.pc, 0x202);
    run_opcode(&mut r, 0x9350).unwrap();
    assert_eq!(r.cpu.pc, 0x204);
    run_opcode(&mut r, 0x9340).unwrap();
    assert_eq!(r.cpu.pc, 0x204);
}

#[test]
fn skips_on_keys() {
    let mut r = rig();
    r.cpu.v[1] = 0xB;
    run_opcode(&mut r, 0xE19E).unwrap();
    assert_eq!(r.cpu.pc, 0x200);
    run_opcode(&mut r, 0xE1A1).unwrap();
    assert_eq!(r.cpu.pc, 0x202);
    r.keyboard.set_pressed(0xB);
    run_opcode(&mut r, 0xE19E).unwrap();
    assert_eq!(r.cpu.pc, 0x204);
    run_opcode(&mut r, 0xE1A1).unwrap();
    assert_eq!(r.cpu.pc, 0x204);
}

#[test]
fn a_key_number_above_fifteen_is_never_down() {
    let mut r = rig();
    for key in 0..16 {
        r.keyboard.set_pressed(key);
    }
    r.cpu.v[1] = 0x1B;
    run_opcode(&mut r, 0xE19E).unwrap();
    assert_eq!(r.cpu.pc, 0x200);
    run_opcode(&mut r, 0xE1A1).unwrap();
    assert_eq!(r.cpu.pc, 0x202);
}

#[test]
fn jump_sets_the_program_counter() {
    let mut r = rig();
    run_opcode(&mut r, 0x1ABC).unwrap();
    assert_eq!(r.cpu.pc, 0xABC);
}

#[test]
fn jump_target_is_fetched_next() {
    let mut r = rig();
    poke_word(&mut r, 0x200, 0x1400);
    poke_word(&mut r, 0x400, 0x6A11);
    poke_word(&mut r, 0x402, 0x6A22);
    cycle(&mut r).unwrap();
    assert_eq!(r.cpu.pc, 0x400);
    cycle(&mut r).unwrap();
    assert_eq!(r.cpu.v[0xA], 0x11);
    assert_eq!(r.cpu.pc, 0x402);
}

#[test]
fn jump_with_offset_adds_v0() {
    let mut r = rig();
    r.cpu.v[0] = 0xFF;
    run_opcode(&mut r, 0xBFFF).unwrap();
    assert_eq!(r.cpu.pc, 0x10FE);
    r.cpu.v[0] = 0x02;
    run_opcode(&mut r, 0xB300).unwrap();
    assert_eq!(r.cpu.pc, 0x302);
}

#[test]
fn call_then_return_comes_back_behind_the_call() {
    let mut r = rig();
    poke_word(&mut r, 0x200, 0x2600);
    poke_word(&mut r, 0x600, 0x00EE);
    cycle(&mut r).unwrap();
    assert_eq!(r.cpu.pc, 0x600);
    assert_eq!(r.cpu.sp, 1);
    cycle(&mut r).unwrap();
    assert_eq!(r.cpu.pc, 0x202);
    assert_eq!(r.cpu.sp, 0);
}

#[test]
fn nested_calls_return_in_reverse_order() {
    let mut r = rig();
    r.cpu.pc = 0x202;
    run_opcode(&mut r, 0x2300).unwrap();
    r.cpu.pc = 0x302;
    run_opcode(&mut r, 0x2400).unwrap();
    assert_eq!(r.cpu.sp, 2);
    run_opcode(&mut r, 0x00EE).unwrap();
    assert_eq!(r.cpu.pc, 0x302);
    run_opcode(&mut r, 0x00EE).unwrap();
    assert_eq!(r.cpu.pc, 0x202);
    assert_eq!(r.cpu.sp, 0);
}

#[test]
fn sixteen_nested_calls_fit_and_the_seventeenth_overflows() {
    let mut r = rig();
    for depth in 0..16u16 {
        r.cpu.pc = 0x200 + 2 * depth;
        assert_eq!(run_opcode(&mut r, 0x2300), Ok(()));
        assert_eq!(r.cpu.sp as u16, depth + 1);
    }
    r.cpu.pc = 0x2AA;
    assert_eq!(run_opcode(&mut r, 0x2300), Err(Fault::StackOverflow));
    assert_eq!(r.cpu.sp, 16);
    assert_eq!(r.cpu.pc, 0x2AA);
    for depth in (0..16u16).rev() {
        assert_eq!(run_opcode(&mut r, 0x00EE), Ok(()));
        assert_eq!(r.cpu.pc, 0x200 + 2 * depth);
    }
    assert_eq!(r.cpu.sp, 0);
}

#[test]
fn return_with_an_empty_stack_underflows() {
    let mut r = rig();
    assert_eq!(run_opcode(&mut r, 0x00EE), Err(Fault::StackUnderflow));
    assert_eq!(r.cpu.pc, 0x200);
    assert_eq!(r.cpu.sp, 0);
}

#[test]
fn load_index_and_add_index() {
    let mut r = rig();
    run_opcode(&mut r, 0xA123).unwrap();
    assert_eq!(r.cpu.i, 0x123);
    r.cpu.v[2] = 0x10;
    run_opcode(&mut r, 0xF21E).unwrap();
    assert_eq!(r.cpu.i, 0x133);
    assert_eq!(r.cpu.v[0xF], 0);
}

#[test]
fn add_index_wraps_at_sixteen_bits() {
    let mut r = rig();
    r.cpu.i = 0xFFFF;
    r.cpu.v[2] = 0x03;
    run_opcode(&mut r, 0xF21E).unwrap();
    assert_eq!(r.cpu.i, 0x0002);
}

#[test]
fn load_glyph_points_at_five_bytes_per_digit() {
    let mut r = rig();
    r.cpu.v[3] = 0xA;
    run_opcode(&mut r, 0xF329).unwrap();
    assert_eq!(r.cpu.i, 50);
    r.cpu.v[3] = 0;
    run_opcode(&mut r, 0xF329).unwrap();
    assert_eq!(r.cpu.i, 0);
    r.cpu.v[3] = 255;
    run_opcode(&mut r, 0xF329).unwrap();
    assert_eq!(r.cpu.i, 1275);
}

#[test]
fn random_is_masked_by_the_operand() {
    let mut r = rig();
    run_opcode_with(&mut r, 0xC30F, 0xA7).unwrap();
    assert_eq!(r.cpu.v[3], 0x07);
    run_opcode_with(&mut r, 0xC3F0, 0xA7).unwrap();
    assert_eq!(r.cpu.v[3], 0xA0);
    run_opcode_with(&mut r, 0xC3FF, 0xA7).unwrap();
    assert_eq!(r.cpu.v[3], 0xA7);
    run_opcode_with(&mut r, 0xC300, 0xA7).unwrap();
    assert_eq!(r.cpu.v[3], 0x00);
}

#[test]
fn random_in_a_cycle_stays_within_the_mask() {
    for _ in 0..200 {
        let mut r = rig();
        poke_word(&mut r, 0x200, 0xC40F);
        poke_word(&mut r, 0x202, 0xC500);
        r.cpu.v[5] = 0x77;
        cycle(&mut r).unwrap();
        cycle(&mut r).unwrap();
        assert!(r.cpu.v[4] <= 0x0F);
        assert_eq!(r.cpu.v[5], 0);
        assert_eq!(r.cpu.pc, 0x204);
    }
}

#[test]
fn timers_are_loaded_and_read() {
    let mut r = rig();
    r.cpu.v[1] = 0x33;
    run_opcode(&mut r, 0xF115).unwrap();
    assert_eq!(r.cpu.dt, 0x33);
    run_opcode(&mut r, 0xF207).unwrap();
    assert_eq!(r.cpu.v[2], 0x33);
    r.cpu.v[1] = 0x44;
    run_opcode(&mut r, 0xF118).unwrap();
    assert_eq!(r.cpu.st, 0x44);
    assert_eq!(r.cpu.dt, 0x33);
}

#[test]
fn timers_count_down_to_zero_and_stay() {
    let mut cpu = Cpu::new();
    cpu.dt = 2;
    cpu.st = 1;
    cpu.tick_timers();
    assert_eq!((cpu.dt, cpu.st), (1, 0));
    cpu.tick_timers();
    assert_eq!((cpu.dt, cpu.st), (0, 0));
    cpu.tick_timers();
    assert_eq!((cpu.dt, cpu.st), (0, 0));
}

#[test]
fn timers_stand_still_while_waiting_for_a_key() {
    let mut r = rig();
    r.cpu.dt = 9;
    r.cpu.st = 9;
    run_opcode(&mut r, 0xF30A).unwrap();
    assert_eq!(r.cpu.awaiting_key, Some(3));
    r.cpu.tick_timers();
    assert_eq!((r.cpu.dt, r.cpu.st), (9, 9));
}

#[test]
fn store_bcd_of_157() {
    let mut r = rig();
    r.cpu.v[7] = 157;
    r.cpu.i = 0x300;
    run_opcode(&mut r, 0xF733).unwrap();
    assert_eq!(r.ram.memory[0x300], 1);
    assert_eq!(r.ram.memory[0x301], 5);
    assert_eq!(r.ram.memory[0x302], 7);
    assert_eq!(r.ram.memory[0x2FF], 0);
    assert_eq!(r.ram.memory[0x303], 0);
}

#[test]
fn store_bcd_for_every_value() {
    for value in 0..=255u8 {
        let mut r = rig();
        r.cpu.v[0] = value;
        r.cpu.i = 0xFFD;
        run_opcode(&mut r, 0xF033).unwrap();
        assert_eq!(r.ram.memory[0xFFD], value / 100);
        assert_eq!(r.ram.memory[0xFFE], value / 10 % 10);
        assert_eq!(r.ram.memory[0xFFF], value % 10);
    }
}

#[test]
fn store_bcd_past_the_end_of_memory_is_a_fault() {
    let mut r = rig();
    r.cpu.v[0] = 255;
    r.cpu.i = 0xFFE;
    assert_eq!(run_opcode(&mut r, 0xF033), Err(Fault::AddressOutOfRange));
    assert_eq!(r.ram.memory[0xFFE], 0);
    assert_eq!(r.ram.memory[0xFFF], 0);
}

#[test]
fn store_registers_copies_the_registers_below_x() {
    let mut r = rig();
    for x in 0..16 {
        r.cpu.v[x] = 0x10 + x as u8;
    }
    r.cpu.i = 0x400;
    run_opcode(&mut r, 0xF355).unwrap();
    assert_eq!(&r.ram.memory[0x400..0x405], &[0x10, 0x11, 0x12, 0, 0]);
    assert_eq!(r.cpu.i, 0x400);
    run_opcode(&mut r, 0xF055).unwrap();
    assert_eq!(&r.ram.memory[0x400..0x405], &[0x10, 0x11, 0x12, 0, 0]);
    run_opcode(&mut r, 0xFF55).unwrap();
    for x in 0..15 {
        assert_eq!(r.ram.memory[0x400 + x], 0x10 + x as u8);
    }
    assert_eq!(r.ram.memory[0x400 + 15], 0);
}

#[test]
fn load_registers_fills_the_registers_below_x() {
    let mut r = rig();
    for offset in 0..16 {
        r.ram.memory[0x500 + offset] = 0xA0 + offset as u8;
    }
    r.cpu.v[3] = 0x33;
    r.cpu.i = 0x500;
    run_opcode(&mut r, 0xF365).unwrap();
    assert_eq!(&r.cpu.v[0..5], &[0xA0, 0xA1, 0xA2, 0x33, 0]);
    assert_eq!(r.cpu.i, 0x500);
}

#[test]
fn register_blocks_past_the_end_of_memory_are_faults() {
    let mut r = rig();
    r.cpu.i = 0xFFE;
    assert_eq!(run_opcode(&mut r, 0xF355), Err(Fault::AddressOutOfRange));
    assert_eq!(run_opcode(&mut r, 0xF365), Err(Fault::AddressOutOfRange));
    assert_eq!(run_opcode(&mut r, 0xF255), Ok(()));
    assert_eq!(run_opcode(&mut r, 0xF265), Ok(()));
    r.cpu.i = 0x1000;
    assert_eq!(run_opcode(&mut r, 0xF055), Ok(()));
    r.cpu.i = 0x1001;
    assert_eq!(run_opcode(&mut r, 0xF055), Err(Fault::AddressOutOfRange));
}

#[test]
fn draw_sets_the_flag_on_collision() {
    let mut r = rig();
    r.ram.memory[0x300] = 0b1010_0000;
    r.cpu.i = 0x300;
    r.cpu.v[1] = 10;
    r.cpu.v[2] = 5;
    r.cpu.v[0xF] = 9;
    run_opcode(&mut r, 0xD121).unwrap();
    assert_eq!(r.cpu.v[0xF], 0);
    assert!(r.display.pixel(10, 5));
    assert!(!r.display.pixel(11, 5));
    assert!(r.display.pixel(12, 5));
    run_opcode(&mut r, 0xD121).unwrap();
    assert_eq!(r.cpu.v[0xF], 1);
    assert!(!r.display.pixel(10, 5));
    assert!(!r.display.pixel(12, 5));
}

#[test]
fn draw_of_no_rows_clears_the_flag() {
    let mut r = rig();
    r.cpu.v[0xF] = 1;
    r.cpu.i = 0x1000;
    run_opcode(&mut r, 0xD120).unwrap();
    assert_eq!(r.cpu.v[0xF], 0);
}

#[test]
fn draw_of_a_glyph_from_the_font() {
    let mut r = rig();
    for (offset, byte) in [0xF0u8, 0x90, 0x90, 0x90, 0xF0].iter().enumerate() {
        r.ram.memory[offset] = *byte;
    }
    run_opcode(&mut r, 0xF029).unwrap();
    run_opcode(&mut r, 0xD005).unwrap();
    let expected = ["####", "#..#", "#..#", "#..#", "####"];
    for (y, line) in expected.iter().enumerate() {
        for (x, c) in line.chars().enumerate() {
            assert_eq!(r.display.pixel(x, y), c == '#');
        }
    }
}

#[test]
fn draw_past_the_end_of_memory_is_a_fault() {
    let mut r = rig();
    r.cpu.i = 0xFFE;
    r.cpu.v[0xF] = 7;
    assert_eq!(run_opcode(&mut r, 0xD123), Err(Fault::AddressOutOfRange));
    assert_eq!(r.cpu.v[0xF], 7);
    assert_eq!(run_opcode(&mut r, 0xD122), Ok(()));
}

#[test]
fn clear_screen_turns_every_pixel_off() {
    let mut r = rig();
    r.ram.memory[0x300] = 0xFF;
    r.cpu.i = 0x300;
    run_opcode(&mut r, 0x00E0).unwrap();
    run_opcode(&mut r, 0xD011).unwrap();
    assert!(r.display.pixel(0, 0));
    run_opcode(&mut r, 0x00E0).unwrap();
    for y in 0..32 {
        for x in 0..64 {
            assert!(!r.display.pixel(x, y));
        }
    }
}

#[test]
fn wait_key_takes_a_key_that_is_down() {
    let mut r = rig();
    r.keyboard.set_pressed(0xC);
    r.keyboard.set_pressed(0x4);
    run_opcode(&mut r, 0xF50A).unwrap();
    assert_eq!(r.cpu.v[5], 0x4);
    assert_eq!(r.cpu.awaiting_key, None);
}

#[test]
fn wait_key_halts_the_processor_until_a_key_goes_down() {
    let mut r = rig();
    poke_word(&mut r, 0x200, 0xF50A);
    poke_word(&mut r, 0x202, 0x6A11);
    cycle(&mut r).unwrap();
    assert_eq!(r.cpu.awaiting_key, Some(5));
    assert_eq!(r.cpu.pc, 0x202);
    for _ in 0..5 {
        cycle(&mut r).unwrap();
        assert_eq!(r.cpu.awaiting_key, Some(5));
        assert_eq!(r.cpu.pc, 0x202);
        assert_eq!(r.cpu.v[0xA], 0);
    }
    r.keyboard.set_pressed(0x9);
    cycle(&mut r).unwrap();
    assert_eq!(r.cpu.awaiting_key, None);
    assert_eq!(r.cpu.v[5], 0x9);
    assert_eq!(r.cpu.pc, 0x202);
    assert_eq!(r.cpu.v[0xA], 0);
    cycle(&mut r).unwrap();
    assert_eq!(r.cpu.v[0xA], 0x11);
    assert_eq!(r.cpu.pc, 0x204);
}

#[test]
fn cycle_advances_the_program_counter_by_two() {
    let mut r = rig();
    poke_word(&mut r, 0x200, 0x6A11);
    cycle(&mut r).unwrap();
    assert_eq!(r.cpu.pc, 0x202);
    assert_eq!(r.cpu.v[0xA], 0x11);
}

#[test]
fn a_faulting_cycle_changes_nothing() {
    let mut r = rig();
    poke_word(&mut r, 0x200, 0xFFFF);
    assert_eq!(cycle(&mut r), Err(Fault::UnknownOpcode(0xFFFF)));
    assert_eq!(r.cpu.pc, 0x200);
    assert_eq!(cycle(&mut r), Err(Fault::UnknownOpcode(0xFFFF)));
    assert_eq!(r.cpu.pc, 0x200);
}

#[test]
fn fetch_past_the_end_of_memory_is_a_fault() {
    let mut r = rig();
    r.cpu.pc = 4095;
    assert_eq!(cycle(&mut r), Err(Fault::AddressOutOfRange));
    assert_eq!(r.cpu.pc, 4095);
    r.cpu.pc = 4094;
    r.ram.memory[4094] = 0x6A;
    r.ram.memory[4095] = 0x11;
    assert_eq!(cycle(&mut r), Ok(()));
    assert_eq!(r.cpu.pc, 4096);
    assert_eq!(cycle(&mut r), Err(Fault::AddressOutOfRange));
}

#[test]
fn execute_runs_a_decoded_instruction() {
    let mut r = rig();
    let result = r.cpu.execute(Instruction::LoadByte { x: 2, byte: 0x5A }, 0, &mut r.ram, &mut r.keyboard, &mut r.display);
    assert_eq!(result, Ok(()));
    assert_eq!(r.cpu.v[2], 0x5A);
}

fn marked_stack() -> [u16; 16] {
    let mut stack = [0u16; 16];
    for (slot, value) in stack.iter_mut().enumerate() {
        *value = 0x300 + slot as u16;
    }
    stack
}

#[test]
fn call_writes_one_stack_slot_and_return_writes_none() {
    let mut r = rig();
    r.cpu.stack = marked_stack();
    r.cpu.sp = 3;
    r.cpu.pc = 0x456;
    run_opcode(&mut r, 0x2800).unwrap();
    let mut expected = marked_stack();
    expected[3] = 0x456;
    assert_eq!(r.cpu.stack, expected);
    assert_eq!(r.cpu.sp, 4);
    assert_eq!(r.cpu.pc, 0x800);
    run_opcode(&mut r, 0x00EE).unwrap();
    assert_eq!(r.cpu.stack, expected);
    assert_eq!(r.cpu.sp, 3);
    assert_eq!(r.cpu.pc, 0x456);
    run_opcode(&mut r, 0x00EE).unwrap();
    assert_eq!(r.cpu.stack, expected);
    assert_eq!(r.cpu.sp, 2);
    assert_eq!(r.cpu.pc, 0x302);
}

#[test]
fn faults_of_the_stack_leave_every_slot() {
    let mut r = rig();
    r.cpu.stack = marked_stack();
    r.cpu.sp = 16;
    assert_eq!(run_opcode(&mut r, 0x2800), Err(Fault::StackOverflow));
    assert_eq!(r.cpu.stack, marked_stack());
    r.cpu.sp = 0;
    assert_eq!(run_opcode(&mut r, 0x00EE), Err(Fault::StackUnderflow));
    assert_eq!(r.cpu.stack, marked_stack());
}

#[test]
fn add_byte_changes_nothing_but_the_register() {
    for x in 0..16u16 {
        let mut r = rig();
        for register in 0..16 {
            r.cpu.v[register] = 0x20 + register as u8;
        }
        r.cpu.stack = marked_stack();
        r.cpu.sp = 5;
        r.cpu.i = 0x123;
        r.cpu.dt = 7;
        r.cpu.st = 9;
        r.cpu.pc = 0x202;
        r.ram.write_byte(0x400, 0x55);
        let memory = r.ram.memory;
        run_opcode(&mut r, 0x70F0 | x << 8).unwrap();
        for register in 0..16 {
            let old = 0x20 + register as u8;
            let expected = if register == x as usize { old.wrapping_add(0xF0) } else { old };
            assert_eq!(r.cpu.v[register], expected);
        }
        assert_eq!(r.cpu.stack, marked_stack());
        assert_eq!((r.cpu.sp, r.cpu.i, r.cpu.dt, r.cpu.st, r.cpu.pc), (5, 0x123, 7, 9, 0x202));
        assert_eq!(r.cpu.awaiting_key, None);
        assert_eq!(r.ram.memory, memory);
    }
}

#[test]
fn jump_and_skips_change_nothing_but_the_program_counter() {
    for (opcode, pc) in [(0x1ABCu16, 0xABCu16), (0x3222, 0x204), (0x3223, 0x202), (0x4222, 0x202), (0x4223, 0x204)] {
        let mut r = rig();
        for register in 0..16 {
            r.cpu.v[register] = 0x20 + register as u8;
        }
        r.cpu.stack = marked_stack();
        r.cpu.sp = 2;
        r.cpu.i = 0x321;
        r.cpu.dt = 4;
        r.cpu.st = 6;
        poke_word(&mut r, 0x200, opcode);
        let memory = r.ram.memory;
        let v = r.cpu.v;
        cycle(&mut r).unwrap();
        assert_eq!(r.cpu.pc, pc, "{:04x}", opcode);
        assert_eq!(r.cpu.v, v);
        assert_eq!(r.cpu.stack, marked_stack());
        assert_eq!((r.cpu.sp, r.cpu.i, r.cpu.dt, r.cpu.st), (2, 0x321, 4, 6));
        assert_eq!(r.ram.memory, memory);
    }
}
