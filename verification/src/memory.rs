//! The flat byte-addressable store: 4096 bytes, every access
//! bounds-checked, with a reset-to-zero operation.

use vstd::prelude::*;
use crate::Chip8Error;
use crate::MEMORY_SIZE;

verus! {

/// The machine's memory.  Addresses 0x000-0xFFF are valid; any access
/// outside that range is refused with an explicit error, never silently
/// wrapped.
pub struct Memory {
    bytes: Vec<u8>,
}

impl View for Memory {
    type V = Seq<u8>;

    closed spec fn view(&self) -> Seq<u8> {
        self.bytes@
    }
}

impl Memory {
    /// The memory always spans exactly the 4096-byte address space.
    pub open spec fn wf(&self) -> bool {
        self@.len() == MEMORY_SIZE
    }

    /// Fresh memory: every byte zero.
    pub fn new() -> (m: Memory)
        ensures
            m.wf(),
            forall|a: int| 0 <= a < MEMORY_SIZE ==> m@[a] == 0u8,
    {
        let mut bytes: Vec<u8> = Vec::new();
        let mut n: usize = 0;
        while n < MEMORY_SIZE as usize
            invariant
                bytes@.len() == n,
                n <= MEMORY_SIZE,
                forall|a: int| 0 <= a < n ==> bytes@[a] == 0u8,
            decreases MEMORY_SIZE - n,
        {
            bytes.push(0u8);
            n = n + 1;
        }
        Memory { bytes }
    }

    /// Zeroes every byte; afterwards every read returns 0.
    pub fn reset(&mut self)
        requires
            old(self).wf(),
        ensures
            final(self).wf(),
            forall|a: int| 0 <= a < MEMORY_SIZE ==> final(self)@[a] == 0u8,
    {
        let mut n: usize = 0;
        while n < MEMORY_SIZE as usize
            invariant
                self@.len() == MEMORY_SIZE,
                n <= MEMORY_SIZE,
                forall|a: int| 0 <= a < n ==> self@[a] == 0u8,
            decreases MEMORY_SIZE - n,
        {
            self.bytes.set(n, 0u8);
            n = n + 1;
        }
    }

    /// Bounds-checked read: the byte at `addr`, or an error past the end
    /// of the address space.
    pub fn read(&self, addr: u16) -> (r: Result<u8, Chip8Error>)
        requires
            self.wf(),
        ensures
            addr < MEMORY_SIZE ==> r == Ok::<u8, Chip8Error>(self@[addr as int]),
            addr >= MEMORY_SIZE ==> r == Err::<u8, Chip8Error>(Chip8Error::MemoryOutOfBounds),
    {
        if addr < MEMORY_SIZE {
            Ok(self.bytes[addr as usize])
        } else {
            Err(Chip8Error::MemoryOutOfBounds)
        }
    }

    /// Bounds-checked write: stores `val` at `addr`, or reports an error
    /// past the end of the address space, leaving memory unchanged.
    pub fn write(&mut self, addr: u16, val: u8) -> (r: Result<(), Chip8Error>)
        requires
            old(self).wf(),
        ensures
            final(self).wf(),
            addr < MEMORY_SIZE ==> r == Ok::<(), Chip8Error>(())
                && final(self)@ == old(self)@.update(addr as int, val),
            addr >= MEMORY_SIZE ==> r == Err::<(), Chip8Error>(Chip8Error::MemoryOutOfBounds)
                && final(self)@ == old(self)@,
    {
        if addr < MEMORY_SIZE {
            self.bytes.set(addr as usize, val);
            Ok(())
        } else {
            Err(Chip8Error::MemoryOutOfBounds)
        }
    }

    /// Copies a program verbatim into memory starting at the
    /// conventional load address 0x200.  A program longer than the 3584
    /// bytes that fit there is refused whole, leaving memory unchanged.
    pub fn load(&mut self, rom: &Vec<u8>) -> (r: Result<(), Chip8Error>)
        requires
            old(self).wf(),
        ensures
            final(self).wf(),
            rom@.len() <= 3584 ==> r == Ok::<(), Chip8Error>(()) && (forall|k: int|
                0 <= k < rom@.len() ==> final(self)@[0x200 + k] == rom@[k]) && (forall|a: int|
                0 <= a < 4096 && !(0x200 <= a < 0x200 + rom@.len()) ==> final(self)@[a] == old(
                    self,
                )@[a]),
            rom@.len() > 3584 ==> r == Err::<(), Chip8Error>(Chip8Error::MemoryOutOfBounds)
                && final(self)@ == old(self)@,
    {
        if rom.len() > 3584 {
            return Err(Chip8Error::MemoryOutOfBounds);
        }
        let mut k: usize = 0;
        while k < rom.len()
            invariant
                rom@.len() <= 3584,
                k <= rom@.len(),
                self@.len() == 4096,
                forall|j: int| 0 <= j < k ==> self@[0x200 + j] == rom@[j],
                forall|a: int|
                    0 <= a < 4096 && !(0x200 <= a < 0x200 + k) ==> self@[a] == old(self)@[a],
            decreases rom@.len() - k,
        {
            self.bytes.set(0x200 + k, rom[k]);
            k = k + 1;
        }
        Ok(())
    }

    /// Unchecked read for verified callers that have already established
    /// the bound.
    pub fn get(&self, addr: u16) -> (r: u8)
        requires
            self.wf(),
            addr < MEMORY_SIZE,
        ensures
            r == self@[addr as int],
    {
        self.bytes[addr as usize]
    }

    /// Unchecked write for verified callers that have already established
    /// the bound.
    pub fn put(&mut self, addr: u16, val: u8)
        requires
            old(self).wf(),
            addr < MEMORY_SIZE,
        ensures
            final(self).wf(),
            final(self)@ == old(self)@.update(addr as int, val),
    {
        self.bytes.set(addr as usize, val);
    }
}

/// Law: writing a byte and then reading the same address yields exactly
/// that byte, at every address of the address space.
pub proof fn lemma_write_then_read(m: Memory, m2: Memory, addr: u16, val: u8)
    requires
        m.wf(),
        addr < MEMORY_SIZE,
        m2@ == m@.update(addr as int, val),
    ensures
        m2@[addr as int] == val,
        forall|a: int| 0 <= a < MEMORY_SIZE && a != addr ==> m2@[a] == m@[a],
{
}

} // verus!
