use chippy::chip8::Chip8;
use chippy::display::Display;
use chippy::keypad::Keypad;
use chippy::step::Chip8Error;
use chippy::step::MEM_SIZE;
use chippy::step::PROGRAM_START;

#[test]
fn rom_of_maximum_size_loads() {
    let rom: Vec<u8> = vec![0xAB; MEM_SIZE - PROGRAM_START - 1];
    let c = Chip8::new(&rom).expect("one byte below the limit fits");
    assert_eq!(c.mem_at(PROGRAM_START), 0xAB);
    assert_eq!(c.mem_at(MEM_SIZE - 2), 0xAB);
    assert_eq!(c.mem_at(MEM_SIZE - 1), 0);
}

#[test]
fn rom_at_limit_is_rejected() {
    let rom: Vec<u8> = vec![0; MEM_SIZE - PROGRAM_START];
    assert_eq!(Chip8::new(&rom).err(), Some(Chip8Error::RomTooLarge));
    let rom: Vec<u8> = vec![0; MEM_SIZE];
    assert_eq!(Chip8::new(&rom).err(), Some(Chip8Error::RomTooLarge));
}

#[test]
fn construction_loads_font_and_rom() {
    let rom: Vec<u8> = vec![0x12, 0x00];
    let c = Chip8::new(&rom).expect("tiny rom fits");
    assert_eq!(c.mem_at(0x50), 0xF0);
    assert_eq!(c.mem_at(0x54), 0xF0);
    assert_eq!(c.mem_at(0x9F), 0x80);
    assert_eq!(c.mem_at(0x1FF), 0);
    assert_eq!(c.mem_at(0x200), 0x12);
    assert_eq!(c.mem_at(0x201), 0x00);
    assert_eq!(c.mem_at(0x202), 0);
    assert_eq!(c.pc(), 0x200);
    assert_eq!(c.sp(), 0);
    assert_eq!(c.index(), 0);
    assert_eq!(c.delay_timer(), 0);
    assert_eq!(c.sound_timer(), 0);
}

#[test]
fn sprite_xor_idempotence() {
    let mut c = Chip8::new(&vec![0xA0, 0x50, 0xD0, 0x05, 0xD0, 0x05]).expect("fits");
    c.run().expect("set index");
    c.run().expect("first draw");
    assert_eq!(c.reg(15), 0);
    assert!(c.display.is_dirty);
    assert!(c.display.pixel(0, 0));
    assert!(c.display.pixel(3, 0));
    assert!(!c.display.pixel(4, 0));
    assert!(c.display.pixel(0, 1));
    assert!(!c.display.pixel(1, 1));
    c.run().expect("second draw");
    assert_eq!(c.reg(15), 1);
    for y in 0..5 {
        for x in 0..8 {
            assert!(!c.display.pixel(x, y));
        }
    }
}

#[test]
fn sprite_clipped_at_edges() {
    let mut c = Chip8::new(&vec![0x60, 0x3E, 0x61, 0x1E, 0xA0, 0x50, 0xD0, 0x15]).expect("fits");
    for _ in 0..4 {
        c.run().expect("cycle");
    }
    assert!(c.display.pixel(62, 30));
    assert!(c.display.pixel(63, 30));
    assert!(c.display.pixel(62, 31));
    assert!(!c.display.pixel(63, 31));
    for x in 0..8 {
        assert!(!c.display.pixel(x, 30));
        assert!(!c.display.pixel(x, 31));
        assert!(!c.display.pixel(x, 0));
    }
    for y in 0..8 {
        assert!(!c.display.pixel(62, y));
        assert!(!c.display.pixel(63, y));
    }
}

#[test]
fn clear_screen_resets_pixels_and_dirty_flag() {
    let mut c = Chip8::new(&vec![0xA0, 0x50, 0xD0, 0x01, 0x00, 0xE0]).expect("fits");
    c.run().expect("set index");
    c.run().expect("draw");
    assert!(c.display.is_dirty);
    assert!(c.display.pixel(0, 0));
    c.run().expect("clear");
    assert!(!c.display.is_dirty);
    for x in 0..8 {
        assert!(!c.display.pixel(x, 0));
    }
}

#[test]
fn display_toggle_reports_collision() {
    let mut d = Display::new();
    assert!(!d.is_dirty);
    let first = d.toggle(10, 20);
    assert!(!first);
    assert!(d.pixel(10, 20));
    assert!(d.is_dirty);
    let second = d.toggle(10, 20);
    assert!(second);
    assert!(!d.pixel(10, 20));
}

#[test]
fn display_cls_turns_everything_off() {
    let mut d = Display::new();
    d.toggle(0, 0);
    d.toggle(63, 31);
    d.cls();
    assert!(!d.pixel(0, 0));
    assert!(!d.pixel(63, 31));
    assert!(!d.is_dirty);
}

#[test]
fn keypad_snapshot_replaces_state() {
    let mut k = Keypad::new();
    for key in 0..16u8 {
        assert!(!k.is_down(key));
    }
    let pressed: Vec<u8> = vec![1, 15];
    k.set_pressed_keys(&pressed);
    assert!(k.is_down(1));
    assert!(k.is_down(15));
    assert!(!k.is_down(2));
    let pressed: Vec<u8> = vec![2];
    k.set_pressed_keys(&pressed);
    assert!(!k.is_down(1));
    assert!(!k.is_down(15));
    assert!(k.is_down(2));
}
