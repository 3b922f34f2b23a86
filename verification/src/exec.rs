//! The executor: fetches the instruction word at the program counter,
//! decodes it, and applies its effect to the state, memory and display.
//!
//! The successful transition is specified by `step_spec`, a function of
//! the pre-state and of the byte the random-number source supplied; the
//! fatal conditions are specified by `step_fails`.  Policy choices left
//! open by the architecture, documented here: index-register arithmetic
//! (`ADD I, Vx`) and the computed jump (`JP V0, addr`) wrap modulo 4096;
//! the register block transfers leave the index register unchanged; the
//! draw flags are recomputed on every step, so they describe the last
//! executed instruction alone.

use vstd::prelude::*;
use crate::Chip8Error;
use crate::display::{collides, draw_spec, Display};
use crate::memory::Memory;
use crate::opcode::{decode, decode_spec, AddOp, JumpOp, LoadOp, OpCode, ShiftOp, SkipOp};
use crate::state::{State, StateModel};

verus! {

/// The big-endian instruction word at address `pc`.
pub open spec fn fetch_spec(mem: Seq<u8>, pc: u16) -> u16 {
    (mem[pc as int] * 256 + mem[pc as int + 1]) as u16
}

/// Register indices and addresses produced by the decoder are always in
/// range; this predicate states the bounds each variant guarantees.
pub open spec fn op_wf(op: OpCode) -> bool {
    match op {
        OpCode::CLS => true,
        OpCode::RET => true,
        OpCode::JP(JumpOp::JP(nnn)) => nnn < 4096,
        OpCode::JP(JumpOp::JPV0(nnn)) => nnn < 4096,
        OpCode::CALL(nnn) => nnn < 4096,
        OpCode::SKIP(sk) => match sk {
            SkipOp::SE(x, _) => x < 16,
            SkipOp::SNE(x, _) => x < 16,
            SkipOp::SEXY(x, y) => x < 16 && y < 16,
            SkipOp::SNEXY(x, y) => x < 16 && y < 16,
            SkipOp::SKP(x) => x < 16,
            SkipOp::SKNP(x) => x < 16,
        },
        OpCode::LD(l) => match l {
            LoadOp::LD(x, _) => x < 16,
            LoadOp::LDXY(x, y) => x < 16 && y < 16,
            LoadOp::LDI(nnn) => nnn < 4096,
            LoadOp::LDVXDT(x) => x < 16,
            LoadOp::LDKEY(x) => x < 16,
            LoadOp::LDDTVX(x) => x < 16,
            LoadOp::LDSTVX(x) => x < 16,
            LoadOp::LDF(x) => x < 16,
            LoadOp::LDB(x) => x < 16,
            LoadOp::LDIV0X(x) => x < 16,
            LoadOp::LDV0XI(x) => x < 16,
        },
        OpCode::ADD(a) => match a {
            AddOp::ADD(x, _) => x < 16,
            AddOp::ADDREG(x, y) => x < 16 && y < 16,
            AddOp::ADDI(x) => x < 16,
        },
        OpCode::OR(x, y) => x < 16 && y < 16,
        OpCode::AND(x, y) => x < 16 && y < 16,
        OpCode::XOR(x, y) => x < 16 && y < 16,
        OpCode::SUB(x, y) => x < 16 && y < 16,
        OpCode::SUBN(x, y) => x < 16 && y < 16,
        OpCode::SHIFT(ShiftOp::SHR(x)) => x < 16,
        OpCode::SHIFT(ShiftOp::SHL(x)) => x < 16,
        OpCode::RND(x, _) => x < 16,
        OpCode::DRW(x, y, n) => x < 16 && y < 16 && n < 16,
        OpCode::Unknown(_) => true,
    }
}

/// Everything the decoder produces satisfies `op_wf`.
pub proof fn lemma_decode_wf(w: u16)
    ensures
        op_wf(decode_spec(w)),
{
    crate::opcode::lemma_fields_in_range(w);
}

/// Subtraction on register values, wrapping modulo 256.
pub open spec fn wrap_sub(a: u8, b: u8) -> u8 {
    if a >= b {
        (a - b) as u8
    } else {
        (a + 256 - b) as u8
    }
}

/// Whether a conditional-skip instruction takes its skip, given the
/// registers and the key snapshot.
pub open spec fn skip_taken(sk: SkipOp, v: Seq<u8>, keys: Seq<u8>) -> bool {
    match sk {
        SkipOp::SE(x, kk) => v[x as int] == kk,
        SkipOp::SNE(x, kk) => v[x as int] != kk,
        SkipOp::SEXY(x, y) => v[x as int] == v[y as int],
        SkipOp::SNEXY(x, y) => v[x as int] != v[y as int],
        SkipOp::SKP(x) => keys.contains(v[x as int]),
        SkipOp::SKNP(x) => !keys.contains(v[x as int]),
    }
}

/// The fatal condition one step from `pre` would hit, if any: a fetch or
/// data access past the address space, a call with all 16 stack levels
/// in use, or a return with an empty stack.
pub open spec fn step_fails(pre: StateModel, mem: Seq<u8>) -> Option<Chip8Error> {
    if pre.pc as int + 1 >= 4096 {
        Some(Chip8Error::MemoryOutOfBounds)
    } else {
        match decode_spec(fetch_spec(mem, pre.pc)) {
            OpCode::RET => if pre.stack.len() == 0 {
                Some(Chip8Error::StackUnderflow)
            } else {
                None
            },
            OpCode::CALL(_) => if pre.stack.len() >= 16 {
                Some(Chip8Error::StackOverflow)
            } else {
                None
            },
            OpCode::LD(LoadOp::LDB(_)) => if pre.i as int + 2 >= 4096 {
                Some(Chip8Error::MemoryOutOfBounds)
            } else {
                None
            },
            OpCode::LD(LoadOp::LDIV0X(x)) => if pre.i as int + x as int >= 4096 {
                Some(Chip8Error::MemoryOutOfBounds)
            } else {
                None
            },
            OpCode::LD(LoadOp::LDV0XI(x)) => if pre.i as int + x as int >= 4096 {
                Some(Chip8Error::MemoryOutOfBounds)
            } else {
                None
            },
            OpCode::DRW(_, _, n) => if pre.i as int + n as int > 4096 {
                Some(Chip8Error::MemoryOutOfBounds)
            } else {
                None
            },
            _ => None,
        }
    }
}

/// The effect of one load/store-family instruction.
pub open spec fn apply_ld(
    pre: StateModel,
    mem: Seq<u8>,
    scr: Seq<u8>,
    keys: Seq<u8>,
    base: StateModel,
    l: LoadOp,
) -> (StateModel, Seq<u8>, Seq<u8>) {
    match l {
        LoadOp::LD(x, kk) => (StateModel { v: pre.v.update(x as int, kk), ..base }, mem, scr),
        LoadOp::LDXY(x, y) => (
            StateModel { v: pre.v.update(x as int, pre.v[y as int]), ..base },
            mem,
            scr,
        ),
        LoadOp::LDI(nnn) => (StateModel { i: nnn, ..base }, mem, scr),
        LoadOp::LDVXDT(x) => (StateModel { v: pre.v.update(x as int, pre.delay), ..base }, mem, scr),
        LoadOp::LDKEY(x) => if keys.len() == 0 {
            // The one stalling instruction: with no key pressed the
            // program counter stays put, so the same instruction is
            // fetched again next step.
            (StateModel { draw: false, clear: false, last: base.last, ..pre }, mem, scr)
        } else {
            (StateModel { v: pre.v.update(x as int, keys[0]), ..base }, mem, scr)
        },
        LoadOp::LDDTVX(x) => (StateModel { delay: pre.v[x as int], ..base }, mem, scr),
        LoadOp::LDSTVX(x) => (StateModel { sound: pre.v[x as int], ..base }, mem, scr),
        LoadOp::LDF(x) => (StateModel { i: (5 * pre.v[x as int]) as u16, ..base }, mem, scr),
        LoadOp::LDB(x) => {
            let val = pre.v[x as int];
            (
                base,
                mem.update(pre.i as int, (val / 100) as u8).update(
                    pre.i as int + 1,
                    ((val / 10) % 10) as u8,
                ).update(pre.i as int + 2, (val % 10) as u8),
                scr,
            )
        },
        LoadOp::LDIV0X(x) => (
            base,
            Seq::new(
                mem.len(),
                |j: int|
                    if pre.i as int <= j <= pre.i as int + x as int {
                        pre.v[j - pre.i as int]
                    } else {
                        mem[j]
                    },
            ),
            scr,
        ),
        LoadOp::LDV0XI(x) => (
            StateModel {
                v: Seq::new(
                    16,
                    |j: int|
                        if j <= x as int {
                            mem[pre.i as int + j]
                        } else {
                            pre.v[j]
                        },
                ),
                ..base
            },
            mem,
            scr,
        ),
    }
}

/// The effect of one successfully executed instruction on the state,
/// memory and screen.  `rnd` is the byte the random source supplied;
/// only `RND` reads it.  Defined only when `step_fails` allows the step.
pub open spec fn apply_op(
    pre: StateModel,
    mem: Seq<u8>,
    scr: Seq<u8>,
    keys: Seq<u8>,
    rnd: u8,
    op: OpCode,
) -> (StateModel, Seq<u8>, Seq<u8>) {
    let pc2 = (pre.pc + 2) as u16;
    let base = StateModel { pc: pc2, draw: false, clear: false, last: op, ..pre };
    match op {
        OpCode::CLS => (
            StateModel { draw: true, clear: true, ..base },
            mem,
            Seq::new(2048, |i: int| 0u8),
        ),
        OpCode::RET => (
            StateModel { pc: pre.stack.last(), stack: pre.stack.drop_last(), ..base },
            mem,
            scr,
        ),
        OpCode::JP(JumpOp::JP(nnn)) => (StateModel { pc: nnn, ..base }, mem, scr),
        OpCode::JP(JumpOp::JPV0(nnn)) => (
            StateModel { pc: ((nnn + pre.v[0]) % 4096) as u16, ..base },
            mem,
            scr,
        ),
        OpCode::CALL(nnn) => (
            StateModel { pc: nnn, stack: pre.stack.push(pc2), ..base },
            mem,
            scr,
        ),
        OpCode::SKIP(sk) => (
            StateModel {
                pc: if skip_taken(sk, pre.v, keys) {
                    (pc2 + 2) as u16
                } else {
                    pc2
                },
                ..base
            },
            mem,
            scr,
        ),
        OpCode::LD(l) => apply_ld(pre, mem, scr, keys, base, l),
        OpCode::ADD(AddOp::ADD(x, kk)) => (
            StateModel { v: pre.v.update(x as int, ((pre.v[x as int] + kk) % 256) as u8), ..base },
            mem,
            scr,
        ),
        OpCode::ADD(AddOp::ADDREG(x, y)) => {
            let sum = pre.v[x as int] + pre.v[y as int];
            (
                StateModel {
                    v: pre.v.update(x as int, (sum % 256) as u8).update(
                        15,
                        if sum > 255 {
                            1u8
                        } else {
                            0u8
                        },
                    ),
                    ..base
                },
                mem,
                scr,
            )
        },
        OpCode::ADD(AddOp::ADDI(x)) => (
            StateModel { i: ((pre.i + pre.v[x as int]) % 4096) as u16, ..base },
            mem,
            scr,
        ),
        OpCode::OR(x, y) => (
            StateModel { v: pre.v.update(x as int, pre.v[x as int] | pre.v[y as int]), ..base },
            mem,
            scr,
        ),
        OpCode::AND(x, y) => (
            StateModel { v: pre.v.update(x as int, pre.v[x as int] & pre.v[y as int]), ..base },
            mem,
            scr,
        ),
        OpCode::XOR(x, y) => (
            StateModel { v: pre.v.update(x as int, pre.v[x as int] ^ pre.v[y as int]), ..base },
            mem,
            scr,
        ),
        OpCode::SUB(x, y) => {
            let a = pre.v[x as int];
            let b = pre.v[y as int];
            (
                StateModel {
                    v: pre.v.update(x as int, wrap_sub(a, b)).update(
                        15,
                        if a >= b {
                            1u8
                        } else {
                            0u8
                        },
                    ),
                    ..base
                },
                mem,
                scr,
            )
        },
        OpCode::SUBN(x, y) => {
            let a = pre.v[x as int];
            let b = pre.v[y as int];
            (
                StateModel {
                    v: pre.v.update(x as int, wrap_sub(b, a)).update(
                        15,
                        if b >= a {
                            1u8
                        } else {
                            0u8
                        },
                    ),
                    ..base
                },
                mem,
                scr,
            )
        },
        OpCode::SHIFT(ShiftOp::SHR(x)) => {
            let a = pre.v[x as int];
            (
                StateModel {
                    v: pre.v.update(x as int, (a / 2) as u8).update(15, (a % 2) as u8),
                    ..base
                },
                mem,
                scr,
            )
        },
        OpCode::SHIFT(ShiftOp::SHL(x)) => {
            let a = pre.v[x as int];
            (
                StateModel {
                    v: pre.v.update(x as int, ((a * 2) % 256) as u8).update(15, (a / 128) as u8),
                    ..base
                },
                mem,
                scr,
            )
        },
        OpCode::RND(x, kk) => (StateModel { v: pre.v.update(x as int, rnd & kk), ..base }, mem, scr),
        OpCode::DRW(x, y, n) => {
            let sprite = mem.subrange(pre.i as int, pre.i as int + n as int);
            let px = pre.v[x as int];
            let py = pre.v[y as int];
            (
                StateModel {
                    v: pre.v.update(
                        15,
                        if collides(scr, sprite, px as int, py as int) {
                            1u8
                        } else {
                            0u8
                        },
                    ),
                    draw: true,
                    ..base
                },
                mem,
                draw_spec(scr, sprite, px as int, py as int),
            )
        },
        OpCode::Unknown(_) => (base, mem, scr),
    }
}

/// One whole step from `pre`: fetch, decode, execute.
pub open spec fn step_spec(
    pre: StateModel,
    mem: Seq<u8>,
    scr: Seq<u8>,
    keys: Seq<u8>,
    rnd: u8,
) -> (StateModel, Seq<u8>, Seq<u8>) {
    apply_op(pre, mem, scr, keys, rnd, decode_spec(fetch_spec(mem, pre.pc)))
}

/// Relies on `rand::random`: one byte drawn from the thread-local
/// generator.  Nothing is promised of its value; the executor states
/// what holds whatever byte came back.
#[verifier::external_body]
fn random_byte() -> u8 {
    rand::random::<u8>()
}

/// Whether the key snapshot contains key code `k`.
pub fn key_pressed(keys: &Vec<u8>, k: u8) -> (b: bool)
    ensures
        b == keys@.contains(k),
{
    let mut idx: usize = 0;
    while idx < keys.len()
        invariant
            idx <= keys@.len(),
            forall|j: int| 0 <= j < idx ==> keys@[j] != k,
        decreases keys@.len() - idx,
    {
        if keys[idx] == k {
            assert(keys@.contains(k)) by {
                assert(keys@[idx as int] == k);
            }
            return true;
        }
        idx = idx + 1;
    }
    assert(!keys@.contains(k)) by {
        if keys@.contains(k) {
            let j = choose|j: int| 0 <= j < keys@.len() && keys@[j] == k;
            assert(false);
        }
    }
    false
}

/// Executes the instruction at the program counter.
///
/// On success the new state, memory and screen are exactly what
/// `step_spec` gives for the byte the random source supplied; on a fatal
/// condition the error is exactly what `step_fails` gives and nothing
/// has changed.
pub fn step(state: &mut State, memory: &mut Memory, keys: &Vec<u8>, screen: &mut Display) -> (r:
    Result<(), Chip8Error>)
    requires
        old(state).wf(),
        old(memory).wf(),
        old(screen).wf(),
    ensures
        final(state).wf(),
        final(memory).wf(),
        final(screen).wf(),
        match r {
            Ok(_) => step_fails(old(state)@, old(memory)@) is None && exists|rnd: u8|
                (#[trigger] step_spec(old(state)@, old(memory)@, old(screen)@, keys@, rnd)) == (
                final(state)@,
                final(memory)@,
                final(screen)@,
                ),
            Err(e) => step_fails(old(state)@, old(memory)@) == Some(e) && final(state)@ == old(
                state,
            )@ && final(memory)@ == old(memory)@ && final(screen)@ == old(screen)@,
        },
{
    let ghost pre = old(state)@;
    let ghost m0 = old(memory)@;
    let ghost s0 = old(screen)@;
    if state.pc >= 4095 {
        return Err(Chip8Error::MemoryOutOfBounds);
    }
    let hi = memory.get(state.pc);
    let lo = memory.get(state.pc + 1);
    let w = (hi as u16) * 256 + (lo as u16);
    let op = decode(w);
    proof {
        assert(w == fetch_spec(m0, pre.pc));
        lemma_decode_wf(w);
    }
    // Fatal data conditions are refused before anything is touched.
    match op {
        OpCode::RET => {
            if state.stack.len() == 0 {
                return Err(Chip8Error::StackUnderflow);
            }
        },
        OpCode::CALL(_) => {
            if state.stack.len() >= 16 {
                return Err(Chip8Error::StackOverflow);
            }
        },
        OpCode::LD(LoadOp::LDB(_)) => {
            if state.i as usize + 2 >= 4096 {
                return Err(Chip8Error::MemoryOutOfBounds);
            }
        },
        OpCode::LD(LoadOp::LDIV0X(x)) => {
            if state.i as usize + x as usize >= 4096 {
                return Err(Chip8Error::MemoryOutOfBounds);
            }
        },
        OpCode::LD(LoadOp::LDV0XI(x)) => {
            if state.i as usize + x as usize >= 4096 {
                return Err(Chip8Error::MemoryOutOfBounds);
            }
        },
        OpCode::DRW(_, _, n) => {
            if state.i as usize + n as usize > 4096 {
                return Err(Chip8Error::MemoryOutOfBounds);
            }
        },
        _ => {},
    }
    let pc2 = state.pc + 2;
    state.last_opcode = op;
    state.draw_flag = false;
    state.clear_flag = false;
    state.pc = pc2;
    match op {
        OpCode::CLS => {
            screen.clear();
            state.draw_flag = true;
            state.clear_flag = true;
            proof {
                let ghost ex = step_spec(pre, m0, s0, keys@, 0u8);
                assert(screen@ =~= ex.2);
                assert(state@ =~= ex.0);
                assert(memory@ =~= ex.1);
                assert(ex == (state@, memory@, screen@));
            }
        },
        OpCode::RET => {
            let ra = match state.stack.pop() {
                Some(a) => a,
                None => 0,
            };
            state.pc = ra;
            proof {
                let ghost ex = step_spec(pre, m0, s0, keys@, 0u8);
                assert(state@ =~= ex.0);
                assert(memory@ =~= ex.1);
                assert(screen@ =~= ex.2);
                assert(ex == (state@, memory@, screen@));
            }
        },
        OpCode::JP(JumpOp::JP(nnn)) => {
            state.pc = nnn;
            proof {
                let ghost ex = step_spec(pre, m0, s0, keys@, 0u8);
                assert(state@ =~= ex.0);
                assert(memory@ =~= ex.1);
                assert(screen@ =~= ex.2);
                assert(ex == (state@, memory@, screen@));
            }
        },
        OpCode::JP(JumpOp::JPV0(nnn)) => {
            state.pc = (nnn + state.v[0] as u16) % 4096;
            proof {
                let ghost ex = step_spec(pre, m0, s0, keys@, 0u8);
                assert(state@ =~= ex.0);
                assert(memory@ =~= ex.1);
                assert(screen@ =~= ex.2);
                assert(ex == (state@, memory@, screen@));
            }
        },
        OpCode::CALL(nnn) => {
            state.stack.push(pc2);
            state.pc = nnn;
            proof {
                let ghost ex = step_spec(pre, m0, s0, keys@, 0u8);
                assert(state@ =~= ex.0);
                assert(memory@ =~= ex.1);
                assert(screen@ =~= ex.2);
                assert(ex == (state@, memory@, screen@));
            }
        },
        OpCode::SKIP(sk) => {
            let taken = match sk {
                SkipOp::SE(x, kk) => state.v[x as usize] == kk,
                SkipOp::SNE(x, kk) => state.v[x as usize] != kk,
                SkipOp::SEXY(x, y) => state.v[x as usize] == state.v[y as usize],
                SkipOp::SNEXY(x, y) => state.v[x as usize] != state.v[y as usize],
                SkipOp::SKP(x) => key_pressed(keys, state.v[x as usize]),
                SkipOp::SKNP(x) => !key_pressed(keys, state.v[x as usize]),
            };
            if taken {
                state.pc = pc2 + 2;
            }
            proof {
                assert(taken == skip_taken(sk, pre.v, keys@));
                let ghost ex = step_spec(pre, m0, s0, keys@, 0u8);
                assert(state@ =~= ex.0);
            }
        },
        OpCode::LD(l) => {
            match l {
                LoadOp::LD(x, kk) => {
                    state.v.set(x as usize, kk);
                },
                LoadOp::LDXY(x, y) => {
                    let val = state.v[y as usize];
                    state.v.set(x as usize, val);
                },
                LoadOp::LDI(nnn) => {
                    state.i = nnn;
                },
                LoadOp::LDVXDT(x) => {
                    let val = state.delay_timer;
                    state.v.set(x as usize, val);
                },
                LoadOp::LDKEY(x) => {
                    if keys.len() == 0 {
                        state.pc = pc2 - 2;
                    } else {
                        let val = keys[0];
                        state.v.set(x as usize, val);
                    }
                },
                LoadOp::LDDTVX(x) => {
                    state.delay_timer = state.v[x as usize];
                },
                LoadOp::LDSTVX(x) => {
                    state.sound_timer = state.v[x as usize];
                },
                LoadOp::LDF(x) => {
                    state.i = 5 * (state.v[x as usize] as u16);
                },
                LoadOp::LDB(x) => {
                    let val = state.v[x as usize];
                    memory.put(state.i, val / 100);
                    memory.put(state.i + 1, (val / 10) % 10);
                    memory.put(state.i + 2, val % 10);
                },
                LoadOp::LDIV0X(x) => {
                    let mut j: usize = 0;
                    while j <= x as usize
                        invariant
                            x < 16,
                            (state.i as int) + (x as int) < 4096,
                            j <= (x as usize) + 1,
                            state.i == pre.i,
                            state@.v == pre.v,
                            pre.v.len() == 16,
                            memory@.len() == 4096,
                            forall|k: int|
                                pre.i as int <= k < pre.i as int + j ==> memory@[k] == pre.v[k
                                    - pre.i as int],
                            forall|k: int|
                                0 <= k < 4096 && !(pre.i as int <= k < pre.i as int + j)
                                    ==> memory@[k] == m0[k],
                        decreases (x as usize) + 1 - j,
                    {
                        let val = state.v[j];
                        memory.put(state.i + j as u16, val);
                        j = j + 1;
                    }
                },
                LoadOp::LDV0XI(x) => {
                    let mut j: usize = 0;
                    while j <= x as usize
                        invariant
                            x < 16,
                            (state.i as int) + (x as int) < 4096,
                            j <= (x as usize) + 1,
                            state.i == pre.i,
                            state.pc == pc2,
                            state.draw_flag == false,
                            state.clear_flag == false,
                            state.last_opcode == op,
                            state@.stack == pre.stack,
                            state.delay_timer == pre.delay,
                            state.sound_timer == pre.sound,
                            state@.v.len() == 16,
                            memory@ == m0,
                            memory.wf(),
                            forall|k: int| 0 <= k < j ==> state@.v[k] == m0[pre.i as int + k],
                            forall|k: int| j <= k < 16 ==> state@.v[k] == pre.v[k],
                        decreases (x as usize) + 1 - j,
                    {
                        let val = memory.get(state.i + j as u16);
                        state.v.set(j, val);
                        j = j + 1;
                    }
                },
            }
            proof {
                let ghost ex = step_spec(pre, m0, s0, keys@, 0u8);
                assert(state@ =~= ex.0);
                assert(memory@ =~= ex.1);
                assert(screen@ =~= ex.2);
                assert(ex == (state@, memory@, screen@));
            }
        },
        OpCode::ADD(AddOp::ADD(x, kk)) => {
            let a = state.v[x as usize];
            let sum: u16 = a as u16 + kk as u16;
            state.v.set(x as usize, (sum % 256) as u8);
            proof {
                let ghost ex = step_spec(pre, m0, s0, keys@, 0u8);
                assert(state@ =~= ex.0);
                assert(memory@ =~= ex.1);
                assert(screen@ =~= ex.2);
                assert(ex == (state@, memory@, screen@));
            }
        },
        OpCode::ADD(AddOp::ADDREG(x, y)) => {
            let a = state.v[x as usize];
            let b = state.v[y as usize];
            let sum: u16 = a as u16 + b as u16;
            state.v.set(x as usize, (sum % 256) as u8);
            state.v.set(15, if sum > 255 { 1 } else { 0 });
            proof {
                let ghost ex = step_spec(pre, m0, s0, keys@, 0u8);
                assert(state@ =~= ex.0);
                assert(memory@ =~= ex.1);
                assert(screen@ =~= ex.2);
                assert(ex == (state@, memory@, screen@));
            }
        },
        OpCode::ADD(AddOp::ADDI(x)) => {
            let a = state.v[x as usize];
            state.i = ((state.i as u32 + a as u32) % 4096) as u16;
            proof {
                let ghost ex = step_spec(pre, m0, s0, keys@, 0u8);
                assert(state@ =~= ex.0);
                assert(memory@ =~= ex.1);
                assert(screen@ =~= ex.2);
                assert(ex == (state@, memory@, screen@));
            }
        },
        OpCode::OR(x, y) => {
            let a = state.v[x as usize];
            let b = state.v[y as usize];
            state.v.set(x as usize, a | b);
            proof {
                let ghost ex = step_spec(pre, m0, s0, keys@, 0u8);
                assert(state@ =~= ex.0);
                assert(memory@ =~= ex.1);
                assert(screen@ =~= ex.2);
                assert(ex == (state@, memory@, screen@));
            }
        },
        OpCode::AND(x, y) => {
            let a = state.v[x as usize];
            let b = state.v[y as usize];
            state.v.set(x as usize, a & b);
            proof {
                let ghost ex = step_spec(pre, m0, s0, keys@, 0u8);
                assert(state@ =~= ex.0);
                assert(memory@ =~= ex.1);
                assert(screen@ =~= ex.2);
                assert(ex == (state@, memory@, screen@));
            }
        },
        OpCode::XOR(x, y) => {
            let a = state.v[x as usize];
            let b = state.v[y as usize];
            state.v.set(x as usize, a ^ b);
            proof {
                let ghost ex = step_spec(pre, m0, s0, keys@, 0u8);
                assert(state@ =~= ex.0);
                assert(memory@ =~= ex.1);
                assert(screen@ =~= ex.2);
                assert(ex == (state@, memory@, screen@));
            }
        },
        OpCode::SUB(x, y) => {
            let a = state.v[x as usize];
            let b = state.v[y as usize];
            let diff = if a >= b {
                a - b
            } else {
                ((a as u16 + 256) - b as u16) as u8
            };
            state.v.set(x as usize, diff);
            state.v.set(15, if a >= b { 1 } else { 0 });
            proof {
                let ghost ex = step_spec(pre, m0, s0, keys@, 0u8);
                assert(state@ =~= ex.0);
                assert(memory@ =~= ex.1);
                assert(screen@ =~= ex.2);
                assert(ex == (state@, memory@, screen@));
            }
        },
        OpCode::SUBN(x, y) => {
            let a = state.v[x as usize];
            let b = state.v[y as usize];
            let diff = if b >= a {
                b - a
            } else {
                ((b as u16 + 256) - a as u16) as u8
            };
            state.v.set(x as usize, diff);
            state.v.set(15, if b >= a { 1 } else { 0 });
            proof {
                let ghost ex = step_spec(pre, m0, s0, keys@, 0u8);
                assert(state@ =~= ex.0);
                assert(memory@ =~= ex.1);
                assert(screen@ =~= ex.2);
                assert(ex == (state@, memory@, screen@));
            }
        },
        OpCode::SHIFT(ShiftOp::SHR(x)) => {
            let a = state.v[x as usize];
            state.v.set(x as usize, a / 2);
            state.v.set(15, a % 2);
            proof {
                let ghost ex = step_spec(pre, m0, s0, keys@, 0u8);
                assert(state@ =~= ex.0);
                assert(memory@ =~= ex.1);
                assert(screen@ =~= ex.2);
                assert(ex == (state@, memory@, screen@));
            }
        },
        OpCode::SHIFT(ShiftOp::SHL(x)) => {
            let a = state.v[x as usize];
            state.v.set(x as usize, ((a as u16 * 2) % 256) as u8);
            state.v.set(15, a / 128);
            proof {
                let ghost ex = step_spec(pre, m0, s0, keys@, 0u8);
                assert(state@ =~= ex.0);
                assert(memory@ =~= ex.1);
                assert(screen@ =~= ex.2);
                assert(ex == (state@, memory@, screen@));
            }
        },
        OpCode::RND(x, kk) => {
            let rb = random_byte();
            state.v.set(x as usize, rb & kk);
            proof {
                let ghost ex = step_spec(pre, m0, s0, keys@, rb);
                assert(state@ =~= ex.0);
                assert(step_spec(pre, m0, s0, keys@, rb) == (state@, memory@, screen@));
            }
        },
        OpCode::DRW(x, y, n) => {
            let mut sprite: Vec<u8> = Vec::new();
            let mut j: usize = 0;
            while j < n as usize
                invariant
                    n < 16,
                    state.i as int + n as int <= 4096,
                    j <= n,
                    state.i == pre.i,
                    memory@ == m0,
                    memory.wf(),
                    sprite@.len() == j,
                    forall|k: int| 0 <= k < j ==> sprite@[k] == m0[pre.i as int + k],
                decreases n as usize - j,
            {
                let b = memory.get(state.i + j as u16);
                sprite.push(b);
                j = j + 1;
            }
            proof {
                assert(sprite@ =~= m0.subrange(pre.i as int, pre.i as int + n as int));
            }
            let px = state.v[x as usize];
            let py = state.v[y as usize];
            let col = screen.draw_sprite(px, py, &sprite);
            state.v.set(15, if col { 1 } else { 0 });
            state.draw_flag = true;
            proof {
                let ghost ex = step_spec(pre, m0, s0, keys@, 0u8);
                assert(state@ =~= ex.0);
                assert(screen@ == ex.2);
                assert(memory@ =~= ex.1);
                assert(ex == (state@, memory@, screen@));
            }
        },
        OpCode::Unknown(_) => {
            proof {
                let ghost ex = step_spec(pre, m0, s0, keys@, 0u8);
                assert(state@ =~= ex.0);
                assert(memory@ =~= ex.1);
                assert(screen@ =~= ex.2);
                assert(ex == (state@, memory@, screen@));
            }
        },
    }
    proof {
        assert(step_fails(pre, m0) is None);
    }
    Ok(())
}


/// Law: a subroutine call followed by a return brings the program
/// counter to the instruction just after the call, and leaves the call
/// stack as it was.
pub proof fn lemma_call_then_ret(
    s0: StateModel,
    mem: Seq<u8>,
    scr: Seq<u8>,
    keys: Seq<u8>,
    rnd0: u8,
    rnd1: u8,
)
    requires
        s0.pc as int + 1 < 4096,
        s0.stack.len() < 16,
        decode_spec(fetch_spec(mem, s0.pc)) matches OpCode::CALL(_),
        ({
            let (s1, m1, c1) = step_spec(s0, mem, scr, keys, rnd0);
            decode_spec(fetch_spec(m1, s1.pc)) == OpCode::RET
        }),
    ensures
        step_fails(s0, mem) is None,
        ({
            let (s1, m1, c1) = step_spec(s0, mem, scr, keys, rnd0);
            let (s2, m2, c2) = step_spec(s1, m1, c1, keys, rnd1);
            s2.pc == s0.pc + 2 && s2.stack == s0.stack && s2.v == s0.v && m2 == mem && c2 == scr
        }),
{
    let (s1, m1, c1) = step_spec(s0, mem, scr, keys, rnd0);
    assert(s1.stack == s0.stack.push((s0.pc + 2) as u16));
    assert(s1.stack.len() > 0);
    let (s2, m2, c2) = step_spec(s1, m1, c1, keys, rnd1);
    assert(s2.pc == s1.stack.last());
    assert(s2.stack =~= s0.stack);
}

/// Law: a subroutine call with all 16 stack levels in use is refused as
/// a stack overflow, never silently truncated.
pub proof fn lemma_call_overflow(s0: StateModel, mem: Seq<u8>)
    requires
        s0.pc as int + 1 < 4096,
        s0.stack.len() >= 16,
        decode_spec(fetch_spec(mem, s0.pc)) matches OpCode::CALL(_),
    ensures
        step_fails(s0, mem) == Some(Chip8Error::StackOverflow),
{
}

/// Law: the wait-for-key instruction stalls on an empty snapshot -- the
/// program counter and registers are left as they were, so the same
/// instruction runs again -- and on a non-empty snapshot it advances the
/// counter by two and stores a pressed key code in its register.
pub proof fn lemma_ldkey(s0: StateModel, mem: Seq<u8>, scr: Seq<u8>, keys: Seq<u8>, rnd: u8)
    requires
        s0.pc as int + 1 < 4096,
        s0.v.len() == 16,
        decode_spec(fetch_spec(mem, s0.pc)) matches OpCode::LD(LoadOp::LDKEY(_)),
    ensures
        step_fails(s0, mem) is None,
        ({
            let op = decode_spec(fetch_spec(mem, s0.pc));
            let (s1, m1, c1) = step_spec(s0, mem, scr, keys, rnd);
            (keys.len() == 0 ==> s1.pc == s0.pc && s1.v == s0.v && s1.i == s0.i && s1.stack
                == s0.stack && m1 == mem && c1 == scr) && (keys.len() > 0 ==> (op matches
                OpCode::LD(LoadOp::LDKEY(x)) && s1.pc == s0.pc + 2 && s1.v == s0.v.update(
                x as int,
                keys[0],
            ) && keys.contains(keys[0])))
        }),
{
    if keys.len() > 0 {
        assert(keys.contains(keys[0])) by {
            assert(keys[0] == keys[0]);
        }
    }
}

/// Law: a word no decoder family matches executes as a no-op that only
/// advances the program counter by two: registers, index, stack, timers,
/// memory and screen are all untouched, and neither draw flag is set.
pub proof fn lemma_unknown_is_noop(
    s0: StateModel,
    mem: Seq<u8>,
    scr: Seq<u8>,
    keys: Seq<u8>,
    rnd: u8,
)
    requires
        s0.pc as int + 1 < 4096,
        decode_spec(fetch_spec(mem, s0.pc)) matches OpCode::Unknown(_),
    ensures
        step_fails(s0, mem) is None,
        ({
            let (s1, m1, c1) = step_spec(s0, mem, scr, keys, rnd);
            s1.pc == s0.pc + 2 && s1.v == s0.v && s1.i == s0.i && s1.stack == s0.stack && s1.delay
                == s0.delay && s1.sound == s0.sound && !s1.draw && !s1.clear && m1 == mem && c1
                == scr
        }),
{
}

} // verus!

