//! The emulator aggregate a host drives: memory, machine state, display
//! and the per-step key snapshot, owned together so that independent
//! instances can never interfere.

use vstd::prelude::*;
use crate::Chip8Error;
use crate::display::{pix_index, Display};
use crate::exec::{step, step_fails, step_spec};
use crate::memory::Memory;
use crate::opcode::{mnemonic, mnemonic_spec};
use crate::state::{State, StateModel};

verus! {

/// The snapshot of pressed key codes handed to one step.
pub struct Keys {
    keys: Vec<u8>,
}

impl View for Keys {
    type V = Seq<u8>;

    closed spec fn view(&self) -> Seq<u8> {
        self.keys@
    }
}

impl Keys {
    /// An empty snapshot: no key pressed.
    pub fn new() -> (k: Keys)
        ensures
            k@ == Seq::<u8>::empty(),
    {
        Keys { keys: Vec::new() }
    }

    /// The snapshot with one more pressed key code appended.
    pub fn pressed(keys: Keys, key: u8) -> (r: Keys)
        ensures
            r@ == keys@.push(key),
    {
        let mut vec = keys.keys;
        vec.push(key);
        Keys { keys: vec }
    }
}

/// The machine's memory as owned by the aggregate.
pub struct Ram {
    memory: Memory,
}

impl View for Ram {
    type V = Seq<u8>;

    closed spec fn view(&self) -> Seq<u8> {
        self.memory@
    }
}

impl Ram {
    fn new() -> (r: Ram)
        ensures
            r@.len() == 4096,
            forall|a: int| 0 <= a < 4096 ==> r@[a] == 0u8,
    {
        Ram { memory: Memory::new() }
    }
}

/// The mathematical model of a whole emulator instance.
#[verifier::ext_equal]
pub ghost struct Chip8Model {
    pub mem: Seq<u8>,
    pub st: StateModel,
    pub scr: Seq<u8>,
    pub keys: Seq<u8>,
}

/// One emulator instance.
pub struct Chip8 {
    memory: Ram,
    state: State,
    screen: Display,
    keys: Keys,
}

impl View for Chip8 {
    type V = Chip8Model;

    closed spec fn view(&self) -> Chip8Model {
        Chip8Model { mem: self.memory@, st: self.state@, scr: self.screen@, keys: self.keys@ }
    }
}

impl Chip8 {
    /// The structural invariant: full memory and screen, 16 registers,
    /// at most 16 stack levels, pixels 0 or 1.
    pub open spec fn wf(&self) -> bool {
        self@.mem.len() == 4096 && self@.st.v.len() == 16 && self@.st.stack.len() <= 16
            && self@.scr.len() == 2048 && (forall|i: int| 0 <= i < 2048 ==> self@.scr[i] <= 1)
    }

    /// A fresh machine: zeroed memory, cleared screen, initial state,
    /// no key pressed.
    pub fn new() -> (c: Chip8)
        ensures
            c.wf(),
            forall|a: int| 0 <= a < 4096 ==> c@.mem[a] == 0u8,
            forall|i: int| 0 <= i < 2048 ==> c@.scr[i] == 0u8,
            forall|j: int| 0 <= j < 16 ==> c@.st.v[j] == 0u8,
            c@.st.pc == 0x200,
            c@.st.i == 0,
            c@.st.stack.len() == 0,
            c@.st.delay == 0,
            c@.st.sound == 0,
            !c@.st.draw,
            !c@.st.clear,
            c@.keys.len() == 0,
    {
        Chip8 { memory: Ram::new(), state: State::new(), screen: Display::new(), keys: Keys::new() }
    }

    /// Zeroes the memory; state, screen and keys are untouched.
    pub fn reset(&mut self)
        requires
            old(self).wf(),
        ensures
            final(self).wf(),
            forall|a: int| 0 <= a < 4096 ==> final(self)@.mem[a] == 0u8,
            final(self)@.st == old(self)@.st,
            final(self)@.scr == old(self)@.scr,
            final(self)@.keys == old(self)@.keys,
    {
        self.memory.memory.reset();
    }

    /// The byte at `addr`; the address must be inside the 4096-byte
    /// address space.
    pub fn read(&self, addr: u16) -> (r: u8)
        requires
            self.wf(),
            addr < 4096,
        ensures
            r == self@.mem[addr as int],
    {
        self.memory.memory.get(addr)
    }

    /// Whether the last executed instruction cleared the display.
    pub fn should_clear(&self) -> (r: bool)
        ensures
            r == self@.st.clear,
    {
        self.state.clear_flag
    }

    /// Whether the last executed instruction requires a redraw.
    pub fn should_draw(&self) -> (r: bool)
        ensures
            r == self@.st.draw,
    {
        self.state.draw_flag
    }

    /// Stores `val` at `addr`; the address must be inside the address
    /// space.  Everything but that byte is untouched.
    pub fn set(self, addr: u16, val: u8) -> (c: Chip8)
        requires
            self.wf(),
            addr < 4096,
        ensures
            c.wf(),
            c@.mem == self@.mem.update(addr as int, val),
            c@.st == self@.st,
            c@.scr == self@.scr,
            c@.keys == self@.keys,
    {
        let Chip8 { memory: mut ram, state, screen, keys } = self;
        ram.memory.put(addr, val);
        Chip8 { memory: ram, state, screen, keys }
    }

    /// Loads a program at the conventional start address 0x200; a
    /// program longer than the 3584 bytes that fit is refused whole,
    /// leaving the machine as it was.
    pub fn load_rom(self, rom: &Vec<u8>) -> (r: Result<Chip8, Chip8Error>)
        requires
            self.wf(),
        ensures
            match r {
                Ok(c) => c.wf() && rom@.len() <= 3584 && (forall|k: int|
                    0 <= k < rom@.len() ==> c@.mem[0x200 + k] == rom@[k]) && (forall|a: int|
                    0 <= a < 4096 && !(0x200 <= a < 0x200 + rom@.len()) ==> c@.mem[a]
                        == self@.mem[a]) && c@.st == self@.st && c@.scr == self@.scr && c@.keys
                    == self@.keys,
                Err(e) => e == Chip8Error::MemoryOutOfBounds && rom@.len() > 3584,
            },
    {
        let Chip8 { memory: mut ram, state, screen, keys } = self;
        match ram.memory.load(rom) {
            Ok(_) => Ok(Chip8 { memory: ram, state, screen, keys }),
            Err(e) => Err(e),
        }
    }

    /// The mnemonic of the last executed instruction, for diagnostics.
    pub fn get_opcode(&self) -> (s: String)
        ensures
            s@ == mnemonic_spec(self@.st.last),
    {
        mnemonic(self.state.last_opcode)
    }

    /// One timer tick: each timer above zero goes down by one, flooring
    /// at zero.  Called by the host at its fixed cadence, independent of
    /// how often `step` runs.
    pub fn timer(ch8: Chip8) -> (c: Chip8)
        requires
            ch8.wf(),
        ensures
            c.wf(),
            c@.st == (StateModel {
                delay: if ch8@.st.delay > 0 {
                    (ch8@.st.delay - 1) as u8
                } else {
                    0u8
                },
                sound: if ch8@.st.sound > 0 {
                    (ch8@.st.sound - 1) as u8
                } else {
                    0u8
                },
                ..ch8@.st
            }),
            c@.mem == ch8@.mem,
            c@.scr == ch8@.scr,
            c@.keys == ch8@.keys,
    {
        let Chip8 { memory, mut state, screen, keys } = ch8;
        state.tick();
        Chip8 { memory, state, screen, keys }
    }

    /// Executes one instruction: fetch at the program counter, decode,
    /// apply.  On success the model moves exactly as `step_spec` gives
    /// for the byte the random source supplied, and the key snapshot is
    /// consumed; a fatal condition is reported exactly as `step_fails`
    /// gives.
    pub fn step(ch8: Chip8) -> (r: Result<Chip8, Chip8Error>)
        requires
            ch8.wf(),
        ensures
            match r {
                Ok(c) => c.wf() && step_fails(ch8@.st, ch8@.mem) is None && c@.keys
                    == Seq::<u8>::empty() && exists|rnd: u8|
                    (#[trigger] step_spec(ch8@.st, ch8@.mem, ch8@.scr, ch8@.keys, rnd)) == (
                    c@.st,
                    c@.mem,
                    c@.scr,
                    ),
                Err(e) => step_fails(ch8@.st, ch8@.mem) == Some(e),
            },
    {
        let Chip8 { memory: mut ram, state: mut st, screen: mut scr, keys } = ch8;
        match step(&mut st, &mut ram.memory, &keys.keys, &mut scr) {
            Ok(_) => {
                proof {
                    let rnd = choose|rnd: u8|
                        (#[trigger] step_spec(ch8@.st, ch8@.mem, ch8@.scr, ch8@.keys, rnd)) == (
                        st@,
                        ram.memory@,
                        scr@,
                        );
                    assert(step_spec(ch8@.st, ch8@.mem, ch8@.scr, ch8@.keys, rnd) == (
                        st@,
                        ram.memory@,
                        scr@,
                    ));
                }
                let c = Chip8 { memory: ram, state: st, screen: scr, keys: Keys::new() };
                Ok(c)
            },
            Err(e) => Err(e),
        }
    }

    /// Replaces the key snapshot the next step will see; everything
    /// else is untouched.
    pub fn set_keys(self, keys: Keys) -> (c: Chip8)
        ensures
            c@.keys == keys@,
            c@.mem == self@.mem,
            c@.st == self@.st,
            c@.scr == self@.scr,
    {
        Chip8 { keys, ..self }
    }

    /// Resets both draw flags, leaving everything else untouched: the
    /// host calls this after rendering a frame.
    pub fn clear_flags(self) -> (c: Chip8)
        ensures
            c@.st == (StateModel { draw: false, clear: false, ..self@.st }),
            c@.mem == self@.mem,
            c@.scr == self@.scr,
            c@.keys == self@.keys,
    {
        let Chip8 { memory, mut state, screen, keys } = self;
        state.draw_flag = false;
        state.clear_flag = false;
        Chip8 { memory, state, screen, keys }
    }

    /// The pixel at wrapped coordinates `(x mod 64, y mod 32)`.
    pub fn get_pixel(&self, x: u8, y: u8) -> (p: u8)
        requires
            self.wf(),
        ensures
            p == self@.scr[pix_index(x as int, y as int)],
            p <= 1,
    {
        self.screen.get_pixel(x, y)
    }
}

} // verus!
