//! The register file and control state: sixteen 8-bit registers, the
//! 16-bit index register and program counter, the 16-level call stack,
//! the two timers, the draw flags and the last decoded instruction.

use vstd::prelude::*;
use crate::opcode::OpCode;

verus! {

/// The mathematical model of the machine state.
#[verifier::ext_equal]
pub ghost struct StateModel {
    pub v: Seq<u8>,
    pub i: u16,
    pub pc: u16,
    pub stack: Seq<u16>,
    pub delay: u8,
    pub sound: u8,
    pub draw: bool,
    pub clear: bool,
    pub last: OpCode,
}

/// The machine state owned by one emulator instance.
pub struct State {
    /// The general-purpose registers `V0`..`VF`; `VF` doubles as the
    /// carry/borrow/collision flag.
    pub v: Vec<u8>,
    /// The index register.
    pub i: u16,
    /// The program counter.
    pub pc: u16,
    /// The call stack of return addresses, at most 16 deep.
    pub stack: Vec<u16>,
    /// The delay timer.
    pub delay_timer: u8,
    /// The sound timer; audio is on exactly while it is nonzero.
    pub sound_timer: u8,
    /// Whether the last step requires a redraw.
    pub draw_flag: bool,
    /// Whether the last step cleared the display.
    pub clear_flag: bool,
    /// The last decoded instruction, kept for diagnostics only.
    pub last_opcode: OpCode,
}

impl View for State {
    type V = StateModel;

    open spec fn view(&self) -> StateModel {
        StateModel {
            v: self.v@,
            i: self.i,
            pc: self.pc,
            stack: self.stack@,
            delay: self.delay_timer,
            sound: self.sound_timer,
            draw: self.draw_flag,
            clear: self.clear_flag,
            last: self.last_opcode,
        }
    }
}

impl State {
    /// There are always exactly 16 registers and at most 16 stack levels.
    pub open spec fn wf(&self) -> bool {
        self@.v.len() == 16 && self@.stack.len() <= 16
    }

    /// The initial state: registers and timers zero, empty stack, the
    /// program counter at the conventional load address.
    pub fn new() -> (s: State)
        ensures
            s.wf(),
            forall|j: int| 0 <= j < 16 ==> s@.v[j] == 0u8,
            s@.i == 0,
            s@.pc == 0x200,
            s@.stack.len() == 0,
            s@.delay == 0,
            s@.sound == 0,
            !s@.draw,
            !s@.clear,
            s@.last == OpCode::Unknown(0),
    {
        let mut v: Vec<u8> = Vec::new();
        let mut n: usize = 0;
        while n < 16
            invariant
                v@.len() == n,
                n <= 16,
                forall|j: int| 0 <= j < n ==> v@[j] == 0u8,
            decreases 16 - n,
        {
            v.push(0u8);
            n = n + 1;
        }
        State {
            v,
            i: 0,
            pc: 0x200,
            stack: Vec::new(),
            delay_timer: 0,
            sound_timer: 0,
            draw_flag: false,
            clear_flag: false,
            last_opcode: OpCode::Unknown(0),
        }
    }

    /// One timer tick: each timer that is above zero goes down by one;
    /// a timer at zero stays at zero, never underflowing.  Nothing else
    /// of the state changes.
    pub fn tick(&mut self)
        ensures
            final(self)@ == (StateModel {
                delay: if old(self)@.delay > 0 {
                    (old(self)@.delay - 1) as u8
                } else {
                    0u8
                },
                sound: if old(self)@.sound > 0 {
                    (old(self)@.sound - 1) as u8
                } else {
                    0u8
                },
                ..old(self)@
            }),
    {
        if self.delay_timer > 0 {
            self.delay_timer = self.delay_timer - 1;
        }
        if self.sound_timer > 0 {
            self.sound_timer = self.sound_timer - 1;
        }
    }
}

} // verus!
