use chip8::color::Color;
use chip8::display::{bit_at, Display, FONT};

fn lit(display: &Display) -> Vec<(usize, usize)> {
    let mut on = Vec::new();
    for y in 0..32 {
        for x in 0..64 {
            if display.pixel(x, y) {
                on.push((x, y));
            }
        }
    }
    on
}

#[test]
fn new_display_is_blank_and_dark() {
    let display = Display::new(Color::White);
    assert!(lit(&display).is_empty());
    for y in 0..200 {
        for x in 0..320 {
            assert_eq!(display.writer().read_byte(x, y), 0);
        }
    }
}

#[test]
fn bit_at_counts_from_the_most_significant_bit() {
    assert!(bit_at(0b1000_0000, 0));
    assert!(!bit_at(0b1000_0000, 1));
    assert!(bit_at(0b0000_0001, 7));
    assert!(!bit_at(0b0000_0001, 6));
    assert!(bit_at(0b0010_0000, 2));
}

#[test]
fn draw_sets_the_bits_of_each_row() {
    let mut display = Display::new(Color::White);
    let collision = display.draw(2, 3, &[0b1001_0000, 0b0110_0000]);
    assert!(!collision);
    assert_eq!(lit(&display), vec![(2, 3), (5, 3), (3, 4), (4, 4)]);
}

#[test]
fn draw_projects_each_pixel_onto_a_block_of_five_by_five() {
    let mut display = Display::new(Color::White);
    display.draw(1, 2, &[0b1000_0000]);
    for y in 0..200u16 {
        for x in 0..320u16 {
            let inside = (5..10).contains(&x) && (10..15).contains(&y);
            assert_eq!(display.writer().read_byte(x, y), if inside { 15 } else { 0 });
        }
    }
}

#[test]
fn draw_uses_the_foreground_colour() {
    let mut display = Display::new(Color::Green);
    display.draw(0, 0, &[0b1000_0000]);
    assert_eq!(display.writer().read_byte(0, 0), 2);
    assert_eq!(display.writer().read_byte(4, 4), 2);
    assert_eq!(display.writer().read_byte(5, 0), 0);
}

#[test]
fn draw_wraps_columns_and_rows() {
    let mut display = Display::new(Color::White);
    let collision = display.draw(60, 30, &[0xFF]);
    assert!(!collision);
    assert_eq!(
        lit(&display),
        vec![(0, 30), (1, 30), (2, 30), (3, 30), (60, 30), (61, 30), (62, 30), (63, 30)]
    );
    let mut display = Display::new(Color::White);
    display.draw(60, 30, &[0xFF, 0x81, 0xC0]);
    assert_eq!(
        lit(&display),
        vec![
            (60, 0), (61, 0),
            (0, 30), (1, 30), (2, 30), (3, 30), (60, 30), (61, 30), (62, 30), (63, 30),
            (3, 31), (60, 31),
        ]
    );
}

#[test]
fn draw_reduces_the_origin_modulo_the_screen_size() {
    let mut a = Display::new(Color::White);
    let mut b = Display::new(Color::White);
    a.draw(64 + 7, 32 * 3 + 4, &[0xA5, 0x3C]);
    b.draw(7, 4, &[0xA5, 0x3C]);
    assert_eq!(lit(&a), lit(&b));
    let mut c = Display::new(Color::White);
    c.draw(usize::MAX, usize::MAX, &[0xC0, 0xC0]);
    let x = usize::MAX % 64;
    let y = usize::MAX % 32;
    let mut expected = vec![(x, y), ((x + 1) % 64, y), (x, (y + 1) % 32), ((x + 1) % 64, (y + 1) % 32)];
    expected.sort_by_key(|&(x, y)| (y, x));
    assert_eq!(lit(&c), expected);
}

#[test]
fn drawing_twice_restores_the_screen_and_collides() {
    let mut display = Display::new(Color::White);
    display.draw(5, 5, &[0xF0, 0x0F]);
    let before = lit(&display);
    let sprite = [0b1100_0011u8, 0xFF, 0x18];
    let first = display.draw(3, 4, &sprite);
    assert!(first);
    assert_ne!(lit(&display), before);
    let second = display.draw(3, 4, &sprite);
    assert!(second);
    assert_eq!(lit(&display), before);
}

#[test]
fn second_draw_onto_pixels_that_were_all_lit_does_not_collide() {
    let mut display = Display::new(Color::White);
    display.draw(0, 0, &[0x80]);
    assert!(display.draw(0, 0, &[0x80]));
    assert!(!display.draw(0, 0, &[0x80]));
}

#[test]
fn a_sprite_of_more_than_32_rows_overlaps_itself() {
    let mut display = Display::new(Color::White);
    let mut sprite = vec![0u8; 33];
    sprite[0] = 0x80;
    sprite[32] = 0xC0;
    let collision = display.draw(0, 0, &sprite);
    assert!(collision);
    assert_eq!(lit(&display), vec![(1, 0)]);
}

#[test]
fn empty_sprite_draws_nothing() {
    let mut display = Display::new(Color::White);
    assert!(!display.draw(9, 9, &[]));
    assert!(lit(&display).is_empty());
    assert!(!display.draw(9, 9, &[0x00, 0x00]));
    assert!(lit(&display).is_empty());
}

#[test]
fn clear_after_draw_returns_to_all_off() {
    let mut display = Display::new(Color::White);
    display.clear();
    display.draw(61, 29, &[0xFF, 0xAA, 0x55, 0xFF]);
    assert!(!lit(&display).is_empty());
    display.clear();
    assert!(lit(&display).is_empty());
    for y in 0..200u16 {
        for x in 0..320u16 {
            assert_eq!(display.writer().read_byte(x, y), 0);
        }
    }
    display.clear();
    assert!(lit(&display).is_empty());
}

#[test]
fn font_has_sixteen_glyphs_of_five_rows() {
    assert_eq!(FONT.len(), 80);
    assert_eq!(&FONT[0..5], &[0xF0, 0x90, 0x90, 0x90, 0xF0]);
    assert_eq!(&FONT[75..80], &[0xF0, 0x80, 0xF0, 0x80, 0x80]);
    assert!(FONT.iter().all(|row| row & 0x0F == 0));
}
