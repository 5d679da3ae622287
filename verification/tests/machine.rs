use chip8::chip8::{memory_image, Chip8Machine};
use chip8::cpu::Fault;
use chip8::display::FONT;

#[test]
fn new_machine_is_blank() {
    let machine = Chip8Machine::new();
    assert_eq!(machine.cpu.pc, 0x200);
    assert_eq!(machine.cpu.i, 0);
    assert_eq!(machine.cpu.v, [0u8; 16]);
    assert_eq!(machine.cpu.stack, [0u16; 16]);
    assert_eq!((machine.cpu.sp, machine.cpu.dt, machine.cpu.st), (0, 0, 0));
    assert_eq!(machine.cpu.awaiting_key, None);
    assert_eq!(machine.memory.memory, [0u8; 4096]);
    assert_eq!(machine.display.writer().read_byte(0, 0), 0);
    for key in 0..16 {
        assert!(machine.keyboard.is_released(key));
    }
    for y in 0..32 {
        for x in 0..64 {
            assert!(!machine.display.pixel(x, y));
        }
    }
}

#[test]
fn memory_image_holds_font_and_program() {
    let game = [0x60u8, 0x0A, 0x61, 0x05];
    let image = memory_image(&game);
    assert_eq!(&image[0..80], &FONT[..]);
    assert!(image[80..0x200].iter().all(|byte| *byte == 0));
    assert_eq!(&image[0x200..0x204], &game[..]);
    assert!(image[0x204..].iter().all(|byte| *byte == 0));
}

#[test]
fn memory_image_of_the_longest_program() {
    let game = vec![0xEEu8; 4096 - 512];
    let image = memory_image(&game);
    assert_eq!(&image[0..80], &FONT[..]);
    assert!(image[0x200..].iter().all(|byte| *byte == 0xEE));
    let image = memory_image(&[]);
    assert!(image[80..].iter().all(|byte| *byte == 0));
}

#[test]
fn end_to_end_add_then_unknown_opcode() {
    let rom = [0x60u8, 0x0A, 0x61, 0x05, 0x80, 0x14, 0x00, 0x00];
    let mut machine = Chip8Machine::new();
    let result = machine.run(&rom, 100);
    assert_eq!(result, Err(Fault::UnknownOpcode(0x0000)));
    assert_eq!(machine.cpu.v[0], 0x0F);
    assert_eq!(machine.cpu.v[1], 0x05);
    assert_eq!(machine.cpu.v[0xF], 0);
    assert_eq!(machine.cpu.pc, 0x206);
}

#[test]
fn run_stops_when_the_cycles_are_used_up() {
    let rom = [0x70u8, 0x01, 0x12, 0x00];
    let mut machine = Chip8Machine::new();
    assert_eq!(machine.run(&rom, 9), Ok(()));
    assert_eq!(machine.cpu.v[0], 5);
    assert_eq!(machine.cpu.pc, 0x202);
    assert_eq!(machine.run(&rom, 0), Ok(()));
    assert_eq!(machine.cpu.v[0], 0);
    assert_eq!(machine.cpu.pc, 0x200);
}

#[test]
fn run_resets_the_processor_and_reloads_memory() {
    let mut machine = Chip8Machine::new();
    machine.run(&[0x6A, 0x42, 0xAF, 0x00, 0xFA, 0x33], 3).unwrap();
    assert_eq!(machine.cpu.v[0xA], 0x42);
    assert_eq!(&machine.memory.memory[0xF00..0xF03], &[0, 6, 6]);
    machine.run(&[0x6B, 0x01], 1).unwrap();
    assert_eq!(machine.cpu.v[0xA], 0);
    assert_eq!(machine.cpu.v[0xB], 1);
    assert_eq!(machine.cpu.i, 0);
    assert_eq!(machine.cpu.stack, [0u16; 16]);
    assert_eq!(&machine.memory.memory[0x202..0x206], &[0, 0, 0, 0]);
    assert_eq!(&machine.memory.memory[0xF00..0xF03], &[0, 0, 0]);
}

#[test]
fn run_draws_a_font_glyph() {
    let rom = [0x60u8, 0x07, 0xF0, 0x29, 0x61, 0x03, 0xD1, 0x15];
    let mut machine = Chip8Machine::new();
    machine.run(&rom, 4).unwrap();
    let expected = ["####", "...#", "..#.", ".#..", ".#.."];
    for (row, line) in expected.iter().enumerate() {
        for (column, c) in line.chars().enumerate() {
            assert_eq!(machine.display.pixel(3 + column, 3 + row), c == '#');
        }
    }
    assert_eq!(machine.cpu.v[0xF], 0);
}

#[test]
fn run_waits_for_a_key() {
    let rom = [0xF3u8, 0x0A, 0x63, 0xFF];
    let mut machine = Chip8Machine::new();
    machine.run(&rom, 50).unwrap();
    assert_eq!(machine.cpu.awaiting_key, Some(3));
    assert_eq!(machine.cpu.pc, 0x202);
    machine.keyboard.set_pressed(0xE);
    machine.run(&rom, 1).unwrap();
    assert_eq!(machine.cpu.v[3], 0xE);
    assert_eq!(machine.cpu.awaiting_key, None);
}
