use chip8::display::Display;
use chip8::exec::step;
use chip8::memory::Memory;
use chip8::opcode::{decode, OpCode};
use chip8::state::State;
use chip8::Chip8Error;

fn setup(program: &[u8]) -> (State, Memory, Display) {
    let mut mem = Memory::new();
    let mut a: u16 = 0x200;
    for &b in program {
        mem.write(a, b).unwrap();
        a += 1;
    }
    (State::new(), mem, Display::new())
}

#[test]
fn mem_write_then_read_every_address() {
    let mut mem = Memory::new();
    for a in 0u16..4096 {
        let v = (a % 251) as u8;
        mem.write(a, v).unwrap();
        assert_eq!(mem.read(a).unwrap(), v);
    }
}

#[test]
fn mem_reset_zeroes_every_address() {
    let mut mem = Memory::new();
    for a in 0u16..4096 {
        mem.write(a, 0xAA).unwrap();
    }
    mem.reset();
    for a in 0u16..4096 {
        assert_eq!(mem.read(a).unwrap(), 0);
    }
}

#[test]
fn mem_out_of_bounds_is_an_error() {
    let mut mem = Memory::new();
    assert_eq!(mem.read(4096), Err(Chip8Error::MemoryOutOfBounds));
    assert_eq!(mem.write(4096, 1), Err(Chip8Error::MemoryOutOfBounds));
    assert_eq!(mem.read(0xFFFF), Err(Chip8Error::MemoryOutOfBounds));
}

#[test]
fn draw_on_cleared_sets_exactly_the_sprite_bits() {
    let mut d = Display::new();
    let collision = d.draw_sprite(0, 0, &vec![0b1000_0001]);
    assert!(!collision);
    assert_eq!(d.get_pixel(0, 0), 1);
    assert_eq!(d.get_pixel(7, 0), 1);
    for x in 1u8..7 {
        assert_eq!(d.get_pixel(x, 0), 0);
    }
    for x in 0u8..64 {
        assert_eq!(d.get_pixel(x, 1), 0);
    }
}

#[test]
fn draw_wraps_at_both_edges() {
    let mut d = Display::new();
    let collision = d.draw_sprite(63, 31, &vec![0b1100_0000, 0b1000_0000]);
    assert!(!collision);
    assert_eq!(d.get_pixel(63, 31), 1);
    assert_eq!(d.get_pixel(0, 31), 1);
    assert_eq!(d.get_pixel(63, 0), 1);
    assert_eq!(d.get_pixel(0, 0), 0);
}

#[test]
fn draw_twice_cancels_and_collides() {
    let mut d = Display::new();
    let sprite = vec![0xFF, 0x81, 0xFF];
    let first = d.draw_sprite(10, 5, &sprite);
    assert!(!first);
    let second = d.draw_sprite(10, 5, &sprite);
    assert!(second);
    for x in 0u8..64 {
        for y in 0u8..32 {
            assert_eq!(d.get_pixel(x, y), 0);
        }
    }
}

#[test]
fn add_immediate_wraps_and_leaves_vf_alone() {
    let (mut st, mut mem, mut scr) = setup(&[0x70, 0x01]);
    st.v[0] = 0xFF;
    st.v[15] = 7;
    step(&mut st, &mut mem, &vec![], &mut scr).unwrap();
    assert_eq!(st.v[0], 0x00);
    assert_eq!(st.v[15], 7);
    assert_eq!(st.pc, 0x202);
}

#[test]
fn add_registers_sets_carry() {
    let (mut st, mut mem, mut scr) = setup(&[0x80, 0x14]);
    st.v[0] = 0xFF;
    st.v[1] = 1;
    step(&mut st, &mut mem, &vec![], &mut scr).unwrap();
    assert_eq!(st.v[0], 0x00);
    assert_eq!(st.v[15], 1);
}

#[test]
fn add_registers_clears_carry_when_none() {
    let (mut st, mut mem, mut scr) = setup(&[0x80, 0x14]);
    st.v[0] = 5;
    st.v[1] = 3;
    st.v[15] = 1;
    step(&mut st, &mut mem, &vec![], &mut scr).unwrap();
    assert_eq!(st.v[0], 8);
    assert_eq!(st.v[15], 0);
}

#[test]
fn sub_without_borrow() {
    let (mut st, mut mem, mut scr) = setup(&[0x80, 0x15]);
    st.v[0] = 5;
    st.v[1] = 3;
    step(&mut st, &mut mem, &vec![], &mut scr).unwrap();
    assert_eq!(st.v[0], 2);
    assert_eq!(st.v[15], 1);
}

#[test]
fn sub_with_borrow_wraps() {
    let (mut st, mut mem, mut scr) = setup(&[0x80, 0x15]);
    st.v[0] = 3;
    st.v[1] = 5;
    step(&mut st, &mut mem, &vec![], &mut scr).unwrap();
    assert_eq!(st.v[0], 0xFE);
    assert_eq!(st.v[15], 0);
}

#[test]
fn subn_reversed_operands() {
    let (mut st, mut mem, mut scr) = setup(&[0x80, 0x17]);
    st.v[0] = 3;
    st.v[1] = 5;
    step(&mut st, &mut mem, &vec![], &mut scr).unwrap();
    assert_eq!(st.v[0], 2);
    assert_eq!(st.v[15], 1);
}

#[test]
fn shift_right_captures_low_bit() {
    let (mut st, mut mem, mut scr) = setup(&[0x80, 0x16]);
    st.v[0] = 0b0000_0011;
    step(&mut st, &mut mem, &vec![], &mut scr).unwrap();
    assert_eq!(st.v[0], 0b0000_0001);
    assert_eq!(st.v[15], 1);
}

#[test]
fn shift_left_captures_high_bit() {
    let (mut st, mut mem, mut scr) = setup(&[0x80, 0x1E]);
    st.v[0] = 0b1000_0001;
    step(&mut st, &mut mem, &vec![], &mut scr).unwrap();
    assert_eq!(st.v[0], 0b0000_0010);
    assert_eq!(st.v[15], 1);
}

#[test]
fn bitwise_ops_leave_vf_alone() {
    let (mut st, mut mem, mut scr) = setup(&[0x80, 0x11]);
    st.v[0] = 0b1010;
    st.v[1] = 0b0110;
    st.v[15] = 9;
    step(&mut st, &mut mem, &vec![], &mut scr).unwrap();
    assert_eq!(st.v[0], 0b1110);
    assert_eq!(st.v[15], 9);

    let (mut st, mut mem, mut scr) = setup(&[0x80, 0x12]);
    st.v[0] = 0b1010;
    st.v[1] = 0b0110;
    step(&mut st, &mut mem, &vec![], &mut scr).unwrap();
    assert_eq!(st.v[0], 0b0010);

    let (mut st, mut mem, mut scr) = setup(&[0x80, 0x13]);
    st.v[0] = 0b1010;
    st.v[1] = 0b0110;
    step(&mut st, &mut mem, &vec![], &mut scr).unwrap();
    assert_eq!(st.v[0], 0b1100);
}

#[test]
fn call_then_ret_resumes_after_call() {
    let (mut st, mut mem, mut scr) = setup(&[0x23, 0x00]);
    mem.write(0x300, 0x00).unwrap();
    mem.write(0x301, 0xEE).unwrap();
    step(&mut st, &mut mem, &vec![], &mut scr).unwrap();
    assert_eq!(st.pc, 0x300);
    assert_eq!(st.stack.len(), 1);
    step(&mut st, &mut mem, &vec![], &mut scr).unwrap();
    assert_eq!(st.pc, 0x202);
    assert_eq!(st.stack.len(), 0);
}

#[test]
fn seventeenth_call_overflows_the_stack() {
    // CALL 0x200 at 0x200: every step pushes one more return address.
    let (mut st, mut mem, mut scr) = setup(&[0x22, 0x00]);
    for _ in 0..16 {
        step(&mut st, &mut mem, &vec![], &mut scr).unwrap();
    }
    assert_eq!(st.stack.len(), 16);
    let r = step(&mut st, &mut mem, &vec![], &mut scr);
    assert_eq!(r, Err(Chip8Error::StackOverflow));
    assert_eq!(st.stack.len(), 16);
}

#[test]
fn ret_with_empty_stack_underflows() {
    let (mut st, mut mem, mut scr) = setup(&[0x00, 0xEE]);
    let r = step(&mut st, &mut mem, &vec![], &mut scr);
    assert_eq!(r, Err(Chip8Error::StackUnderflow));
    assert_eq!(st.pc, 0x200);
}

#[test]
fn fetch_past_the_address_space_fails() {
    let (mut st, mut mem, mut scr) = setup(&[]);
    st.pc = 4095;
    let r = step(&mut st, &mut mem, &vec![], &mut scr);
    assert_eq!(r, Err(Chip8Error::MemoryOutOfBounds));
}

#[test]
fn ldkey_stalls_on_empty_snapshot() {
    let (mut st, mut mem, mut scr) = setup(&[0xF0, 0x0A]);
    step(&mut st, &mut mem, &vec![], &mut scr).unwrap();
    assert_eq!(st.pc, 0x200);
    assert_eq!(st.v[0], 0);
}

#[test]
fn ldkey_takes_a_pressed_key() {
    let (mut st, mut mem, mut scr) = setup(&[0xF0, 0x0A]);
    step(&mut st, &mut mem, &vec![5], &mut scr).unwrap();
    assert_eq!(st.pc, 0x202);
    assert_eq!(st.v[0], 5);
}

#[test]
fn delay_timer_floors_at_zero() {
    let mut st = State::new();
    st.delay_timer = 3;
    for _ in 0..5 {
        st.tick();
    }
    assert_eq!(st.delay_timer, 0);
    assert_eq!(st.sound_timer, 0);
}

#[test]
fn unknown_opcode_is_a_noop_with_pc_advance() {
    let (mut st, mut mem, mut scr) = setup(&[0xFF, 0xFF]);
    st.v[3] = 9;
    st.i = 77;
    step(&mut st, &mut mem, &vec![], &mut scr).unwrap();
    assert_eq!(st.pc, 0x202);
    assert_eq!(st.v[3], 9);
    assert_eq!(st.i, 77);
    assert_eq!(st.stack.len(), 0);
    assert!(!st.draw_flag);
    assert!(!st.clear_flag);
    assert_eq!(st.last_opcode, OpCode::Unknown(0xFFFF));
    for x in 0u8..64 {
        for y in 0u8..32 {
            assert_eq!(scr.get_pixel(x, y), 0);
        }
    }
}

#[test]
fn decode_ffff_is_unknown() {
    assert_eq!(decode(0xFFFF), OpCode::Unknown(0xFFFF));
}

#[test]
fn rnd_masked_with_zero_is_zero() {
    let (mut st, mut mem, mut scr) = setup(&[0xC0, 0x00]);
    step(&mut st, &mut mem, &vec![], &mut scr).unwrap();
    assert_eq!(st.v[0], 0);
    assert_eq!(st.pc, 0x202);
}

#[test]
fn bcd_stores_three_digits() {
    let (mut st, mut mem, mut scr) = setup(&[0xA3, 0x00, 0xF5, 0x33]);
    st.v[5] = 254;
    step(&mut st, &mut mem, &vec![], &mut scr).unwrap();
    assert_eq!(st.i, 0x300);
    step(&mut st, &mut mem, &vec![], &mut scr).unwrap();
    assert_eq!(mem.read(0x300).unwrap(), 2);
    assert_eq!(mem.read(0x301).unwrap(), 5);
    assert_eq!(mem.read(0x302).unwrap(), 4);
}

#[test]
fn bcd_past_the_address_space_fails() {
    let (mut st, mut mem, mut scr) = setup(&[0xF0, 0x33]);
    st.i = 4094;
    let r = step(&mut st, &mut mem, &vec![], &mut scr);
    assert_eq!(r, Err(Chip8Error::MemoryOutOfBounds));
}

#[test]
fn store_and_load_register_block() {
    let (mut st, mut mem, mut scr) = setup(&[0xA3, 0x00, 0xF2, 0x55, 0xF2, 0x65]);
    st.v[0] = 11;
    st.v[1] = 22;
    st.v[2] = 33;
    st.v[3] = 44;
    step(&mut st, &mut mem, &vec![], &mut scr).unwrap();
    step(&mut st, &mut mem, &vec![], &mut scr).unwrap();
    assert_eq!(mem.read(0x300).unwrap(), 11);
    assert_eq!(mem.read(0x301).unwrap(), 22);
    assert_eq!(mem.read(0x302).unwrap(), 33);
    assert_eq!(mem.read(0x303).unwrap(), 0);
    assert_eq!(st.i, 0x300, "the index register is left unchanged");
    st.v[0] = 0;
    st.v[1] = 0;
    st.v[2] = 0;
    step(&mut st, &mut mem, &vec![], &mut scr).unwrap();
    assert_eq!(st.v[0], 11);
    assert_eq!(st.v[1], 22);
    assert_eq!(st.v[2], 33);
    assert_eq!(st.v[3], 44, "registers past x are untouched");
}

#[test]
fn cls_clears_and_raises_both_flags() {
    let (mut st, mut mem, mut scr) = setup(&[0xA3, 0x00, 0xD0, 0x01, 0x00, 0xE0]);
    mem.write(0x300, 0x80).unwrap();
    step(&mut st, &mut mem, &vec![], &mut scr).unwrap();
    step(&mut st, &mut mem, &vec![], &mut scr).unwrap();
    assert_eq!(scr.get_pixel(0, 0), 1);
    assert!(st.draw_flag);
    assert!(!st.clear_flag);
    step(&mut st, &mut mem, &vec![], &mut scr).unwrap();
    assert_eq!(scr.get_pixel(0, 0), 0);
    assert!(st.draw_flag);
    assert!(st.clear_flag);
}

#[test]
fn drw_sets_collision_flag_on_second_draw() {
    let (mut st, mut mem, mut scr) = setup(&[0xA3, 0x00, 0xD0, 0x01, 0xD0, 0x01]);
    mem.write(0x300, 0xFF).unwrap();
    step(&mut st, &mut mem, &vec![], &mut scr).unwrap();
    step(&mut st, &mut mem, &vec![], &mut scr).unwrap();
    assert_eq!(st.v[15], 0);
    step(&mut st, &mut mem, &vec![], &mut scr).unwrap();
    assert_eq!(st.v[15], 1);
    assert_eq!(scr.get_pixel(0, 0), 0);
}

#[test]
fn drw_past_the_address_space_fails() {
    let (mut st, mut mem, mut scr) = setup(&[0xD0, 0x0F]);
    st.i = 4090;
    let r = step(&mut st, &mut mem, &vec![], &mut scr);
    assert_eq!(r, Err(Chip8Error::MemoryOutOfBounds));
}

#[test]
fn jumps_set_pc_directly() {
    let (mut st, mut mem, mut scr) = setup(&[0x12, 0x34]);
    step(&mut st, &mut mem, &vec![], &mut scr).unwrap();
    assert_eq!(st.pc, 0x234);

    let (mut st, mut mem, mut scr) = setup(&[0xB2, 0x30]);
    st.v[0] = 4;
    step(&mut st, &mut mem, &vec![], &mut scr).unwrap();
    assert_eq!(st.pc, 0x234);
}

#[test]
fn skips_advance_pc_by_four_when_taken() {
    let (mut st, mut mem, mut scr) = setup(&[0x30, 0x07]);
    st.v[0] = 7;
    step(&mut st, &mut mem, &vec![], &mut scr).unwrap();
    assert_eq!(st.pc, 0x204);

    let (mut st, mut mem, mut scr) = setup(&[0x30, 0x07]);
    st.v[0] = 8;
    step(&mut st, &mut mem, &vec![], &mut scr).unwrap();
    assert_eq!(st.pc, 0x202);

    let (mut st, mut mem, mut scr) = setup(&[0xE0, 0x9E]);
    st.v[0] = 2;
    step(&mut st, &mut mem, &vec![2], &mut scr).unwrap();
    assert_eq!(st.pc, 0x204);

    let (mut st, mut mem, mut scr) = setup(&[0xE0, 0xA1]);
    st.v[0] = 2;
    step(&mut st, &mut mem, &vec![], &mut scr).unwrap();
    assert_eq!(st.pc, 0x204);
}

#[test]
fn load_family_moves_values() {
    let (mut st, mut mem, mut scr) = setup(&[0x60, 0x42]);
    step(&mut st, &mut mem, &vec![], &mut scr).unwrap();
    assert_eq!(st.v[0], 0x42);

    let (mut st, mut mem, mut scr) = setup(&[0x80, 0x10]);
    st.v[1] = 9;
    step(&mut st, &mut mem, &vec![], &mut scr).unwrap();
    assert_eq!(st.v[0], 9);

    let (mut st, mut mem, mut scr) = setup(&[0xF0, 0x07]);
    st.delay_timer = 7;
    step(&mut st, &mut mem, &vec![], &mut scr).unwrap();
    assert_eq!(st.v[0], 7);

    let (mut st, mut mem, mut scr) = setup(&[0xF0, 0x15]);
    st.v[0] = 9;
    step(&mut st, &mut mem, &vec![], &mut scr).unwrap();
    assert_eq!(st.delay_timer, 9);

    let (mut st, mut mem, mut scr) = setup(&[0xF0, 0x18]);
    st.v[0] = 6;
    step(&mut st, &mut mem, &vec![], &mut scr).unwrap();
    assert_eq!(st.sound_timer, 6);

    let (mut st, mut mem, mut scr) = setup(&[0xF0, 0x29]);
    st.v[0] = 5;
    step(&mut st, &mut mem, &vec![], &mut scr).unwrap();
    assert_eq!(st.i, 25);

    let (mut st, mut mem, mut scr) = setup(&[0xF0, 0x1E]);
    st.i = 10;
    st.v[0] = 5;
    step(&mut st, &mut mem, &vec![], &mut scr).unwrap();
    assert_eq!(st.i, 15);
}

#[test]
fn load_copies_the_program_at_the_start_address() {
    let mut mem = Memory::new();
    mem.write(0x1FF, 0x77).unwrap();
    mem.load(&vec![1, 2, 3]).unwrap();
    assert_eq!(mem.read(0x200).unwrap(), 1);
    assert_eq!(mem.read(0x201).unwrap(), 2);
    assert_eq!(mem.read(0x202).unwrap(), 3);
    assert_eq!(mem.read(0x1FF).unwrap(), 0x77);
    assert_eq!(mem.read(0x203).unwrap(), 0);
}

#[test]
fn load_refuses_a_program_that_does_not_fit() {
    let mut mem = Memory::new();
    let big = vec![0xAAu8; 3585];
    assert_eq!(mem.load(&big), Err(Chip8Error::MemoryOutOfBounds));
    assert_eq!(mem.read(0x200).unwrap(), 0);
    let exact = vec![0xBBu8; 3584];
    mem.load(&exact).unwrap();
    assert_eq!(mem.read(0xFFF).unwrap(), 0xBB);
}
