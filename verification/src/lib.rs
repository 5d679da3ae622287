//! A CHIP-8 virtual machine: a processor that decodes and executes the
//! instruction set over 4096 bytes of memory, a keypad of sixteen keys and a
//! monochrome screen of 64 by 32 pixels that is kept on a frame buffer.
//!
//! Every function states what it does over a mathematical model of the
//! machine, and the statements are proved.

pub mod chip8;
pub mod color;
pub mod cpu;
pub mod display;
pub mod instruction;
pub mod keyboard;
pub mod ram;
pub mod vga_13h_buffer;
