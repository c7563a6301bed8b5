//! A verified CHIP-8 virtual machine: a 4096-byte address space, sixteen
//! 8-bit registers, a 64x32 monochrome framebuffer with XOR drawing, a
//! sixteen-key pad, and a fetch-decode-execute interpreter running one
//! instruction per call.

pub mod chip8;
pub mod display;
pub mod keypad;
pub mod laws;
pub mod step;
