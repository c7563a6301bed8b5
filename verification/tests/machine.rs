use chippy::chip8::Chip8;
use chippy::step::Chip8Error;

fn boot(rom: &[u8]) -> Chip8 {
    let bytes: Vec<u8> = rom.to_vec();
    Chip8::new(&bytes).expect("rom fits")
}

fn run_cycles(c: &mut Chip8, n: usize) {
    let mut k: usize = 0;
    while k < n {
        c.run().expect("cycle succeeds");
        k += 1;
    }
}

#[test]
fn set_register_immediate() {
    let mut c = boot(&[0x6A, 0x42]);
    run_cycles(&mut c, 1);
    assert_eq!(c.reg(10), 0x42);
    for r in 0..16u8 {
        if r != 10 {
            assert_eq!(c.reg(r), 0);
        }
    }
    assert_eq!(c.pc(), 0x202);
}

#[test]
fn add_with_carry_overflow() {
    let mut c = boot(&[0x60, 0xFF, 0x61, 0x01, 0x80, 0x14]);
    run_cycles(&mut c, 3);
    assert_eq!(c.reg(0), 0x00);
    assert_eq!(c.reg(15), 1);
}

#[test]
fn add_without_carry() {
    let mut c = boot(&[0x60, 0x01, 0x61, 0x01, 0x80, 0x14]);
    run_cycles(&mut c, 3);
    assert_eq!(c.reg(0), 0x02);
    assert_eq!(c.reg(15), 0);
}

#[test]
fn sub_with_borrow_wraparound() {
    let mut c = boot(&[0x60, 0x03, 0x61, 0x05, 0x80, 0x15]);
    run_cycles(&mut c, 3);
    assert_eq!(c.reg(0), 0xFE);
    assert_eq!(c.reg(15), 0);
}

#[test]
fn sub_without_borrow() {
    let mut c = boot(&[0x60, 0x05, 0x61, 0x03, 0x80, 0x15]);
    run_cycles(&mut c, 3);
    assert_eq!(c.reg(0), 0x02);
    assert_eq!(c.reg(15), 1);
}

#[test]
fn subn_uses_original_operands() {
    let mut c = boot(&[0x60, 0x03, 0x61, 0x05, 0x80, 0x17]);
    run_cycles(&mut c, 3);
    assert_eq!(c.reg(0), 0x02);
    assert_eq!(c.reg(15), 1);
}

#[test]
fn shift_right_sets_flag_from_lsb() {
    let mut c = boot(&[0x60, 0x85, 0x80, 0x06]);
    run_cycles(&mut c, 2);
    assert_eq!(c.reg(0), 0x42);
    assert_eq!(c.reg(15), 1);
}

#[test]
fn shift_left_sets_flag_from_msb() {
    let mut c = boot(&[0x60, 0x85, 0x80, 0x0E]);
    run_cycles(&mut c, 2);
    assert_eq!(c.reg(0), 0x0A);
    assert_eq!(c.reg(15), 1);
}

#[test]
fn bitwise_or_and_xor() {
    let mut c = boot(&[0x60, 0x0C, 0x61, 0x0A, 0x80, 0x11]);
    run_cycles(&mut c, 3);
    assert_eq!(c.reg(0), 0x0E);
    let mut c = boot(&[0x60, 0x0C, 0x61, 0x0A, 0x80, 0x12]);
    run_cycles(&mut c, 3);
    assert_eq!(c.reg(0), 0x08);
    let mut c = boot(&[0x60, 0x0C, 0x61, 0x0A, 0x80, 0x13]);
    run_cycles(&mut c, 3);
    assert_eq!(c.reg(0), 0x06);
}

#[test]
fn add_immediate_wraps_without_flag() {
    let mut c = boot(&[0x60, 0xFF, 0x70, 0x02]);
    run_cycles(&mut c, 2);
    assert_eq!(c.reg(0), 0x01);
    assert_eq!(c.reg(15), 0);
}

#[test]
fn load_register_from_register() {
    let mut c = boot(&[0x60, 0x07, 0x81, 0x00]);
    run_cycles(&mut c, 2);
    assert_eq!(c.reg(1), 0x07);
}

#[test]
fn jump_sets_pc() {
    let mut c = boot(&[0x12, 0x34]);
    run_cycles(&mut c, 1);
    assert_eq!(c.pc(), 0x234);
}

#[test]
fn jump_v0_offset() {
    let mut c = boot(&[0x60, 0x10, 0xB2, 0x30]);
    run_cycles(&mut c, 2);
    assert_eq!(c.pc(), 0x240);
}

#[test]
fn skip_equal_immediate_taken() {
    let mut c = boot(&[0x60, 0x07, 0x30, 0x07]);
    run_cycles(&mut c, 2);
    assert_eq!(c.pc(), 0x206);
}

#[test]
fn skip_equal_immediate_not_taken() {
    let mut c = boot(&[0x60, 0x07, 0x30, 0x08]);
    run_cycles(&mut c, 2);
    assert_eq!(c.pc(), 0x204);
}

#[test]
fn skip_not_equal_immediate() {
    let mut c = boot(&[0x60, 0x07, 0x40, 0x08]);
    run_cycles(&mut c, 2);
    assert_eq!(c.pc(), 0x206);
}

#[test]
fn skip_register_comparisons() {
    let mut c = boot(&[0x60, 0x07, 0x81, 0x00, 0x51, 0x00]);
    run_cycles(&mut c, 3);
    assert_eq!(c.pc(), 0x208);
    let mut c = boot(&[0x60, 0x07, 0x91, 0x00]);
    run_cycles(&mut c, 2);
    assert_eq!(c.pc(), 0x206);
}

#[test]
fn call_return_round_trip() {
    let mut c = boot(&[0x22, 0x04, 0x00, 0x00, 0x00, 0xEE]);
    run_cycles(&mut c, 1);
    assert_eq!(c.pc(), 0x204);
    assert_eq!(c.sp(), 1);
    assert_eq!(c.stack_at(1), 0x202);
    run_cycles(&mut c, 1);
    assert_eq!(c.pc(), 0x202);
    assert_eq!(c.sp(), 0);
}

#[test]
fn stack_underflow_is_fatal() {
    let mut c = boot(&[0x00, 0xEE]);
    let r = c.run();
    assert_eq!(r, Err(Chip8Error::StackUnderflow { opcode: 0x00EE, pc: 0x200 }));
    assert_eq!(c.pc(), 0x200);
}

#[test]
fn stack_overflow_is_fatal() {
    let mut c = boot(&[0x22, 0x00]);
    for _ in 0..15 {
        c.run().expect("room on the stack");
    }
    assert_eq!(c.sp(), 15);
    let r = c.run();
    assert_eq!(r, Err(Chip8Error::StackOverflow { opcode: 0x2200, pc: 0x200 }));
}

#[test]
fn unknown_opcode_is_fatal() {
    let mut c = boot(&[0xFF, 0xFF]);
    let r = c.run();
    assert_eq!(r, Err(Chip8Error::UnknownOpcode { opcode: 0xFFFF, pc: 0x200 }));
    let mut c = boot(&[0x50, 0x01]);
    let r = c.run();
    assert_eq!(r, Err(Chip8Error::UnknownOpcode { opcode: 0x5001, pc: 0x200 }));
    let mut c = boot(&[0x80, 0x18]);
    let r = c.run();
    assert_eq!(r, Err(Chip8Error::UnknownOpcode { opcode: 0x8018, pc: 0x200 }));
}

#[test]
fn machine_subroutine_is_a_no_op() {
    let mut c = boot(&[0x01, 0x23]);
    run_cycles(&mut c, 1);
    assert_eq!(c.pc(), 0x202);
}

#[test]
fn set_index_register() {
    let mut c = boot(&[0xA1, 0x23]);
    run_cycles(&mut c, 1);
    assert_eq!(c.index(), 0x123);
}

#[test]
fn add_to_index_register() {
    let mut c = boot(&[0xA0, 0x10, 0x60, 0x05, 0xF0, 0x1E]);
    run_cycles(&mut c, 3);
    assert_eq!(c.index(), 0x15);
}

#[test]
fn font_address_of_glyph() {
    let mut c = boot(&[0x60, 0x0B, 0xF0, 0x29]);
    run_cycles(&mut c, 2);
    assert_eq!(c.index(), 0x50 + 11 * 5);
}

#[test]
fn bcd_store() {
    let mut c = boot(&[0x60, 0xEA, 0xA3, 0x00, 0xF0, 0x33]);
    run_cycles(&mut c, 3);
    assert_eq!(c.mem_at(0x300), 2);
    assert_eq!(c.mem_at(0x301), 3);
    assert_eq!(c.mem_at(0x302), 4);
}

#[test]
fn block_store_and_load() {
    let mut c = boot(&[
        0x60, 0x11, 0x61, 0x22, 0xA3, 0x00, 0xF1, 0x55, 0x60, 0x00, 0x61, 0x00, 0xF1, 0x65,
    ]);
    run_cycles(&mut c, 4);
    assert_eq!(c.mem_at(0x300), 0x11);
    assert_eq!(c.mem_at(0x301), 0x22);
    run_cycles(&mut c, 3);
    assert_eq!(c.reg(0), 0x11);
    assert_eq!(c.reg(1), 0x22);
}

#[test]
fn timers_decrement_once_per_cycle() {
    let mut c = boot(&[0x60, 0x05, 0xF0, 0x15, 0xF1, 0x07]);
    run_cycles(&mut c, 3);
    assert_eq!(c.delay_timer(), 4);
    assert_eq!(c.reg(1), 4);
    let mut c = boot(&[0x60, 0x03, 0xF0, 0x18, 0x61, 0x00]);
    run_cycles(&mut c, 3);
    assert_eq!(c.sound_timer(), 2);
}

#[test]
fn random_masked_by_immediate() {
    let mut c = boot(&[0xC0, 0x0F, 0xC1, 0x00]);
    run_cycles(&mut c, 2);
    assert_eq!(c.reg(0) & 0xF0, 0);
    assert_eq!(c.reg(1), 0);
    assert_eq!(c.pc(), 0x204);
}

#[test]
fn skip_if_key_pressed() {
    let mut c = boot(&[0xE0, 0x9E]);
    let keys: Vec<u8> = vec![0];
    c.keypad.set_pressed_keys(&keys);
    run_cycles(&mut c, 1);
    assert_eq!(c.pc(), 0x204);
}

#[test]
fn skip_if_key_not_pressed() {
    let mut c = boot(&[0xE0, 0xA1]);
    run_cycles(&mut c, 1);
    assert_eq!(c.pc(), 0x204);
    let mut c = boot(&[0xE0, 0xA1]);
    let keys: Vec<u8> = vec![0];
    c.keypad.set_pressed_keys(&keys);
    run_cycles(&mut c, 1);
    assert_eq!(c.pc(), 0x202);
}

#[test]
fn key_wait_polls_without_advancing() {
    let mut c = boot(&[0xF3, 0x0A]);
    run_cycles(&mut c, 3);
    assert_eq!(c.pc(), 0x200);
    assert_eq!(c.reg(3), 0);
}

#[test]
fn key_wait_stores_on_release() {
    let mut c = boot(&[0xF3, 0x0A]);
    run_cycles(&mut c, 1);
    assert_eq!(c.pc(), 0x200);
    let down: Vec<u8> = vec![5];
    c.keypad.set_pressed_keys(&down);
    run_cycles(&mut c, 1);
    assert_eq!(c.pc(), 0x200);
    assert_eq!(c.reg(3), 0);
    let up: Vec<u8> = vec![];
    c.keypad.set_pressed_keys(&up);
    run_cycles(&mut c, 1);
    assert_eq!(c.reg(3), 5);
    assert_eq!(c.pc(), 0x202);
}

#[test]
fn key_wait_ignores_key_still_held() {
    let mut c = boot(&[0xF3, 0x0A]);
    let down: Vec<u8> = vec![7];
    c.keypad.set_pressed_keys(&down);
    run_cycles(&mut c, 4);
    assert_eq!(c.pc(), 0x200);
    assert_eq!(c.reg(3), 0);
}

#[test]
fn done_at_zero_sentinel() {
    let c = boot(&[0x00, 0x00]);
    assert!(c.done());
    let mut c = boot(&[0x60, 0x01]);
    assert!(!c.done());
    run_cycles(&mut c, 1);
    assert!(c.done());
}
