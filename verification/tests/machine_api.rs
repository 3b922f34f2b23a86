use chip8::machine::{Chip8, Keys};

fn load(mut c: Chip8, program: &[u8]) -> Chip8 {
    let mut a: u16 = 0x200;
    for &b in program {
        c = c.set(a, b);
        a += 1;
    }
    c
}

#[test]
fn new_machine_is_blank() {
    let c = Chip8::new();
    for a in (0u16..4096).step_by(97) {
        assert_eq!(c.read(a), 0);
    }
    for x in 0u8..64 {
        for y in 0u8..32 {
            assert_eq!(c.get_pixel(x, y), 0);
        }
    }
    assert!(!c.should_draw());
    assert!(!c.should_clear());
}

#[test]
fn set_then_read_roundtrip() {
    let c = Chip8::new();
    let c = c.set(0x200, 0xAB).set(0xFFF, 0x12);
    assert_eq!(c.read(0x200), 0xAB);
    assert_eq!(c.read(0xFFF), 0x12);
    assert_eq!(c.read(0x201), 0);
}

#[test]
fn reset_zeroes_memory_only() {
    let mut c = load(Chip8::new(), &[0x60, 0x42]);
    c = Chip8::step(c).unwrap();
    let s = c.get_opcode();
    c.reset();
    assert_eq!(c.read(0x200), 0);
    assert_eq!(c.read(0x201), 0);
    assert_eq!(c.get_opcode(), s, "reset leaves the machine state alone");
}

#[test]
fn cls_raises_flags_and_clear_flags_resets_them() {
    let mut c = load(Chip8::new(), &[0x00, 0xE0]);
    c = Chip8::step(c).unwrap();
    assert!(c.should_draw());
    assert!(c.should_clear());
    assert_eq!(c.get_opcode(), "CLS");
    c = c.clear_flags();
    assert!(!c.should_draw());
    assert!(!c.should_clear());
}

#[test]
fn step_reports_fatal_errors() {
    let c = load(Chip8::new(), &[0x00, 0xEE]);
    match Chip8::step(c) {
        Ok(_) => panic!("a return with an empty stack must be fatal"),
        Err(e) => assert_eq!(e, chip8::Chip8Error::StackUnderflow),
    }
}

#[test]
fn get_opcode_names_the_last_instruction() {
    let mut c = load(Chip8::new(), &[0x60, 0x42, 0xFF, 0xFF]);
    assert_eq!(c.get_opcode(), "Unknown");
    c = Chip8::step(c).unwrap();
    assert_eq!(c.get_opcode(), "LD Vx, byte");
    c = Chip8::step(c).unwrap();
    assert_eq!(c.get_opcode(), "Unknown");
}

#[test]
fn drawing_through_step_is_visible_to_get_pixel() {
    // LD I, 0x300; DRW V0, V0, 1 with a one-byte sprite 0b11000000.
    let mut c = load(Chip8::new(), &[0xA3, 0x00, 0xD0, 0x01]);
    c = c.set(0x300, 0xC0);
    c = Chip8::step(c).unwrap();
    c = Chip8::step(c).unwrap();
    assert!(c.should_draw());
    assert!(!c.should_clear());
    assert_eq!(c.get_pixel(0, 0), 1);
    assert_eq!(c.get_pixel(1, 0), 1);
    assert_eq!(c.get_pixel(2, 0), 0);
}

#[test]
fn keys_reach_the_wait_for_key_instruction() {
    // LD V0, K; LD I, 0x300; LD [I], V0 -- then memory holds the key.
    let mut c = load(Chip8::new(), &[0xF0, 0x0A, 0xA3, 0x00, 0xF0, 0x55]);
    // An empty snapshot stalls: the same instruction stays current.
    c = Chip8::step(c).unwrap();
    c = Chip8::step(c).unwrap();
    let keys = Keys::pressed(Keys::new(), 5);
    c = c.set_keys(keys);
    c = Chip8::step(c).unwrap();
    c = Chip8::step(c).unwrap();
    c = Chip8::step(c).unwrap();
    assert_eq!(c.read(0x300), 5);
}

#[test]
fn key_snapshot_is_consumed_by_a_step() {
    let mut c = load(Chip8::new(), &[0xFF, 0xFF, 0xF0, 0x0A]);
    c = c.set_keys(Keys::pressed(Keys::new(), 3));
    // The first step consumes the snapshot even though it ignores keys.
    c = Chip8::step(c).unwrap();
    // So the wait-for-key instruction now stalls.
    c = Chip8::step(c).unwrap();
    c = Chip8::step(c).unwrap();
    assert_eq!(c.get_opcode(), "LD Vx, K");
    assert_eq!(c.read(0x300), 0);
}

#[test]
fn timer_ticks_floor_at_zero_through_the_machine() {
    // LD V0, 3; LD DT, V0 -- then tick five times and store DT via
    // LD V1, DT; LD I, 0x300; LD [I], V0..V1.
    let mut c = load(
        Chip8::new(),
        &[0x60, 0x03, 0xF0, 0x15, 0xF1, 0x07, 0xA3, 0x00, 0xF1, 0x55],
    );
    c = Chip8::step(c).unwrap();
    c = Chip8::step(c).unwrap();
    for _ in 0..5 {
        c = Chip8::timer(c);
    }
    c = Chip8::step(c).unwrap();
    c = Chip8::step(c).unwrap();
    c = Chip8::step(c).unwrap();
    assert_eq!(c.read(0x301), 0, "the delay timer settled at zero");
    assert_eq!(c.read(0x300), 3);
}

#[test]
fn load_rom_then_step_runs_the_program() {
    let c = Chip8::new();
    let c = c.load_rom(&vec![0x60, 0x42, 0xA3, 0x00, 0xF0, 0x55]).unwrap();
    let c = Chip8::step(c).unwrap();
    let c = Chip8::step(c).unwrap();
    let c = Chip8::step(c).unwrap();
    assert_eq!(c.read(0x300), 0x42);
}
