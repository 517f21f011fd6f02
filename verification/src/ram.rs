//! Flat program and working memory.
//!
//! A fixed 4096-byte array.  The low region holds a built-in bitmap font for
//! the sixteen hexadecimal glyphs, five bytes each, so the glyph for digit `d`
//! starts at address `d * 5`.  Programs are loaded at `PROG_START` and execute
//! from there.  All access through this type is bounds checked, so an
//! out-of-range address is a reported error, never a corruption.

use vstd::prelude::*;
use crate::Error;

verus! {

/// Total number of addressable bytes.
pub const MEM_SIZE: usize = 4096;

/// Canonical start address for loaded programs; everything below it is
/// reserved for the interpreter's font table.
pub const PROG_START: usize = 0x200;

/// Number of bytes in one font glyph.
pub const GLYPH_SIZE: usize = 5;

/// The built-in font table: sixteen hexadecimal glyphs of five bytes each.
pub open spec fn font_seq() -> Seq<u8> {
    seq![
        0xF0u8, 0x90u8, 0x90u8, 0x90u8, 0xF0u8, // 0
        0x20u8, 0x60u8, 0x20u8, 0x20u8, 0x70u8, // 1
        0xF0u8, 0x10u8, 0xF0u8, 0x80u8, 0xF0u8, // 2
        0xF0u8, 0x10u8, 0xF0u8, 0x10u8, 0xF0u8, // 3
        0x90u8, 0x90u8, 0xF0u8, 0x10u8, 0x10u8, // 4
        0xF0u8, 0x80u8, 0xF0u8, 0x10u8, 0xF0u8, // 5
        0xF0u8, 0x80u8, 0xF0u8, 0x90u8, 0xF0u8, // 6
        0xF0u8, 0x10u8, 0x20u8, 0x40u8, 0x40u8, // 7
        0xF0u8, 0x90u8, 0xF0u8, 0x90u8, 0xF0u8, // 8
        0xF0u8, 0x90u8, 0xF0u8, 0x10u8, 0xF0u8, // 9
        0xF0u8, 0x90u8, 0xF0u8, 0x90u8, 0x90u8, // A
        0xE0u8, 0x90u8, 0xE0u8, 0x90u8, 0xE0u8, // B
        0xF0u8, 0x80u8, 0x80u8, 0x80u8, 0xF0u8, // C
        0xE0u8, 0x90u8, 0x90u8, 0x90u8, 0xE0u8, // D
        0xF0u8, 0x80u8, 0xF0u8, 0x80u8, 0xF0u8, // E
        0xF0u8, 0x80u8, 0xF0u8, 0x80u8, 0x80u8, // F
    ]
}

/// The memory a fresh machine starts with: the font table followed by zeroes.
pub open spec fn initial_mem() -> Seq<u8> {
    Seq::new(MEM_SIZE as nat, |a: int| if a < 80 { font_seq()[a] } else { 0u8 })
}

/// Memory contents after loading `program` at `PROG_START`.
pub open spec fn loaded_mem(m: Seq<u8>, program: Seq<u8>) -> Seq<u8> {
    Seq::new(
        MEM_SIZE as nat,
        |a: int|
            if PROG_START <= a < PROG_START + program.len() {
                program[a - PROG_START]
            } else {
                m[a]
            },
    )
}

/// Flat addressable memory, font preloaded.
pub struct Ram {
    buf: Vec<u8>,
}

impl View for Ram {
    type V = Seq<u8>;

    closed spec fn view(&self) -> Seq<u8> {
        self.buf@
    }
}

impl Ram {
    /// Memory always spans exactly `MEM_SIZE` bytes.
    pub open spec fn wf(&self) -> bool {
        self@.len() == MEM_SIZE
    }

    /// Fresh memory: the font table in the reserved low region, zero
    /// everywhere else.
    pub fn new() -> (r: Ram)
        ensures
            r.wf(),
            r@ == initial_mem(),
    {
        let mut buf: Vec<u8> = Vec::new();
        buf.push(0xF0); buf.push(0x90); buf.push(0x90); buf.push(0x90); buf.push(0xF0);
        buf.push(0x20); buf.push(0x60); buf.push(0x20); buf.push(0x20); buf.push(0x70);
        buf.push(0xF0); buf.push(0x10); buf.push(0xF0); buf.push(0x80); buf.push(0xF0);
        buf.push(0xF0); buf.push(0x10); buf.push(0xF0); buf.push(0x10); buf.push(0xF0);
        buf.push(0x90); buf.push(0x90); buf.push(0xF0); buf.push(0x10); buf.push(0x10);
        buf.push(0xF0); buf.push(0x80); buf.push(0xF0); buf.push(0x10); buf.push(0xF0);
        buf.push(0xF0); buf.push(0x80); buf.push(0xF0); buf.push(0x90); buf.push(0xF0);
        buf.push(0xF0); buf.push(0x10); buf.push(0x20); buf.push(0x40); buf.push(0x40);
        buf.push(0xF0); buf.push(0x90); buf.push(0xF0); buf.push(0x90); buf.push(0xF0);
        buf.push(0xF0); buf.push(0x90); buf.push(0xF0); buf.push(0x10); buf.push(0xF0);
        buf.push(0xF0); buf.push(0x90); buf.push(0xF0); buf.push(0x90); buf.push(0x90);
        buf.push(0xE0); buf.push(0x90); buf.push(0xE0); buf.push(0x90); buf.push(0xE0);
        buf.push(0xF0); buf.push(0x80); buf.push(0x80); buf.push(0x80); buf.push(0xF0);
        buf.push(0xE0); buf.push(0x90); buf.push(0x90); buf.push(0x90); buf.push(0xE0);
        buf.push(0xF0); buf.push(0x80); buf.push(0xF0); buf.push(0x80); buf.push(0xF0);
        buf.push(0xF0); buf.push(0x80); buf.push(0xF0); buf.push(0x80); buf.push(0x80);
        assert(buf@ =~= font_seq());
        while buf.len() < MEM_SIZE
            invariant
                80 <= buf@.len() <= MEM_SIZE,
                buf@.subrange(0, 80) =~= font_seq(),
                forall|a: int| 80 <= a < buf@.len() ==> buf@[a] == 0u8,
            decreases MEM_SIZE - buf@.len(),
        {
            buf.push(0);
        }
        let r = Ram { buf };
        assert(r@ =~= initial_mem());
        r
    }

    /// Overwrite memory from `PROG_START` with the whole program.  Fails,
    /// leaving memory untouched, exactly when the program does not fit in the
    /// space above `PROG_START`.
    pub fn load(&mut self, program: &Vec<u8>) -> (r: Result<(), Error>)
        requires
            old(self).wf(),
        ensures
            final(self).wf(),
            program@.len() > MEM_SIZE - PROG_START ==> r == Err::<(), Error>(Error::ProgramTooLarge)
                && final(self)@ == old(self)@,
            program@.len() <= MEM_SIZE - PROG_START ==> r == Ok::<(), Error>(())
                && final(self)@ == loaded_mem(old(self)@, program@),
    {
        if program.len() > MEM_SIZE - PROG_START {
            return Err(Error::ProgramTooLarge);
        }
        let mut j: usize = 0;
        while j < program.len()
            invariant
                0 <= j <= program@.len(),
                program@.len() <= MEM_SIZE - PROG_START,
                self@.len() == MEM_SIZE,
                forall|a: int| PROG_START <= a < PROG_START + j ==> self@[a] == program@[
                    a - PROG_START
                ],
                forall|a: int|
                    0 <= a < MEM_SIZE && !(PROG_START <= a < PROG_START + j) ==> self@[a] == old(
                        self,
                    )@[a],
            decreases program@.len() - j,
        {
            self.buf[PROG_START + j] = program[j];
            j = j + 1;
        }
        assert(self@ =~= loaded_mem(old(self)@, program@));
        Ok(())
    }

    /// Bounds-checked read: `None` exactly for an out-of-range address.
    pub fn read(&self, addr: u16) -> (r: Option<u8>)
        requires
            self.wf(),
        ensures
            r == if addr < MEM_SIZE {
                Some(self@[addr as int])
            } else {
                None::<u8>
            },
    {
        if (addr as usize) < MEM_SIZE {
            Some(self.buf[addr as usize])
        } else {
            None
        }
    }

    /// Bounds-checked write: fails, leaving memory untouched, exactly for an
    /// out-of-range address.
    pub fn write(&mut self, addr: u16, val: u8) -> (r: Result<(), Error>)
        requires
            old(self).wf(),
        ensures
            final(self).wf(),
            addr < MEM_SIZE ==> r == Ok::<(), Error>(()) && final(self)@ == old(self)@.update(
                addr as int,
                val,
            ),
            addr >= MEM_SIZE ==> r == Err::<(), Error>(Error::MemoryOutOfBounds) && final(self)@
                == old(self)@,
    {
        if (addr as usize) < MEM_SIZE {
            self.buf[addr as usize] = val;
            Ok(())
        } else {
            Err(Error::MemoryOutOfBounds)
        }
    }

    /// In-range read for the engine, which checks bounds itself.
    pub(crate) fn get(&self, addr: usize) -> (r: u8)
        requires
            self.wf(),
            addr < MEM_SIZE,
        ensures
            r == self@[addr as int],
    {
        self.buf[addr]
    }

    /// In-range write for the engine, which checks bounds itself.
    pub(crate) fn set(&mut self, addr: usize, val: u8)
        requires
            old(self).wf(),
            addr < MEM_SIZE,
        ensures
            final(self).wf(),
            final(self)@ == old(self)@.update(addr as int, val),
    {
        self.buf[addr] = val;
    }
}

} // verus!
