//! An 8-bit virtual machine with a fixed two-byte instruction set, sixteen
//! general-purpose registers, a call stack, two 60 Hz countdown timers and a
//! monochrome 64 by 32 bitmap display driven by XOR sprite blitting.
//!
//! The crate holds the instruction execution engine (`Cpu`), the flat memory
//! with its built-in font (`Ram`), the timers, and an in-memory display
//! (`Console`).  A driver loop outside the crate owns real-time pacing,
//! terminal rendering and key capture; it feeds the engine one polled key per
//! tick and calls the timers' `decrement` on their own 60 Hz schedule.

use vstd::prelude::*;

pub mod console;
pub mod cpu;
pub mod ram;
pub mod timer;

pub use console::bitarray;
pub use console::Console;
pub use console::DisplayAdaptor;
pub use cpu::Cpu;
pub use cpu::CpuV;
pub use cpu::Instr;
pub use ram::Ram;
pub use ram::MEM_SIZE;
pub use ram::PROG_START;
pub use timer::DelayTimer;
pub use timer::SoundTimer;

verus! {

/// The key code delivered for a symbol outside the sixteen-key map; it is
/// filtered out by the driver and never latched by the engine.
pub const NO_KEY: u8 = 0x99;

/// A whole machine: the engine, its memory and the display it draws into.
/// The driver loop outside the crate paces `tick`, feeds it the key polled
/// this tick, calls `tick_timers` on the 60 Hz schedule and renders the
/// display's grid.
pub struct Chip8<D: Display> {
    /// The execution engine.
    pub cpu: Cpu,
    /// Program and working memory, font preloaded.
    pub ram: Ram,
    /// The display capability the engine draws into.
    pub dsp: D,
}

impl<D: Display> Chip8<D> {
    /// All three components are well formed.
    pub open spec fn wf(&self) -> bool {
        self.cpu.wf() && self.ram.wf() && self.dsp.wf()
    }

    /// A fresh machine around the given display: the engine in its start
    /// state and memory holding only the font.
    pub fn new(dsp: D) -> (c: Chip8<D>)
        requires
            dsp.wf(),
        ensures
            c.wf(),
            c.cpu@ == cpu::init_cpu(),
            c.ram@ == ram::initial_mem(),
            c.dsp == dsp,
    {
        let cpu = Cpu::new();
        let ram = Ram::new();
        Chip8 { cpu, ram, dsp }
    }

    /// Execute exactly one instruction, feeding the key the driver polled
    /// this tick; see `cpu::tick_rel` for the opcode-by-opcode contract.
    pub fn tick(&mut self, input: Option<Key>) -> (r: Result<(), Error>)
        requires
            old(self).wf(),
        ensures
            final(self).wf(),
            cpu::tick_rel(
                old(self).cpu@,
                final(self).cpu@,
                old(self).ram@,
                final(self).ram@,
                old(self).dsp.grid(),
                final(self).dsp.grid(),
                input,
                r,
            ),
    {
        self.cpu.tick(&mut self.ram, &mut self.dsp, input)
    }

    /// Step until the program counter leaves the program region, an error is
    /// reported, or `max_steps` instructions have run; no key input is fed.
    /// The final state is reached from the initial one by the returned number
    /// of chained ticks.
    pub fn run(&mut self, max_steps: usize) -> (r: Result<usize, Error>)
        requires
            old(self).wf(),
        ensures
            final(self).wf(),
            r matches Ok(n) ==> n <= max_steps && (n < max_steps ==> final(self).cpu@.pc >= 0xFFE)
                && cpu::steps_rel(
                old(self).cpu@,
                final(self).cpu@,
                old(self).ram@,
                final(self).ram@,
                old(self).dsp.grid(),
                final(self).dsp.grid(),
                n as nat,
            ),
            r matches Err(e) ==> exists|n: nat, pm: cpu::CpuV, mm: Seq<u8>, gm: Seq<Seq<bool>>|
                n < max_steps && #[trigger] cpu::steps_rel(
                    old(self).cpu@,
                    pm,
                    old(self).ram@,
                    mm,
                    old(self).dsp.grid(),
                    gm,
                    n,
                ) && cpu::tick_rel(
                    pm,
                    final(self).cpu@,
                    mm,
                    final(self).ram@,
                    gm,
                    final(self).dsp.grid(),
                    None,
                    Err(e),
                ),
    {
        self.cpu.run(&mut self.ram, &mut self.dsp, max_steps)
    }

    /// One 60 Hz step of both timers; the driver owns the cadence.
    pub fn tick_timers(&mut self)
        requires
            old(self).wf(),
        ensures
            final(self).wf(),
            final(self).cpu@ == (cpu::CpuV {
                dt: cpu::timer_dec(old(self).cpu@.dt),
                st: cpu::timer_dec(old(self).cpu@.st),
                ..old(self).cpu@
            }),
            final(self).ram@ == old(self).ram@,
            final(self).dsp == old(self).dsp,
    {
        self.cpu.tick_timers()
    }
}

/// A hexadecimal key code in `0x0 ..= 0xF`, or `NO_KEY` for an unmapped
/// symbol.
#[derive(Debug, Clone, Copy, PartialEq, Eq, Structural)]
pub struct Key(pub u8);

/// The fixed table from input symbols to key codes; every unmapped symbol
/// yields `NO_KEY`.
pub open spec fn key_code(c: char) -> u8 {
    if c == '1' { 0x1u8 }
    else if c == '2' { 0x2u8 }
    else if c == '3' { 0x3u8 }
    else if c == 'q' { 0x4u8 }
    else if c == 'w' { 0x5u8 }
    else if c == 'e' { 0x6u8 }
    else if c == 'a' { 0x7u8 }
    else if c == 's' { 0x8u8 }
    else if c == 'd' { 0x9u8 }
    else if c == 'z' { 0xAu8 }
    else if c == 'x' { 0x0u8 }
    else if c == 'c' { 0xBu8 }
    else if c == '4' { 0xCu8 }
    else if c == 'r' { 0xDu8 }
    else if c == 'f' { 0xEu8 }
    else if c == 'v' { 0xFu8 }
    else { NO_KEY }
}

impl core::convert::From<char> for Key {
    /// Map one input symbol to its key, `Key(NO_KEY)` when unmapped.
    fn from(c: char) -> (k: Key) {
        match c {
            '1' => Key(0x1),
            '2' => Key(0x2),
            '3' => Key(0x3),
            'q' => Key(0x4),
            'w' => Key(0x5),
            'e' => Key(0x6),
            'a' => Key(0x7),
            's' => Key(0x8),
            'd' => Key(0x9),
            'z' => Key(0xA),
            'x' => Key(0x0),
            'c' => Key(0xB),
            '4' => Key(0xC),
            'r' => Key(0xD),
            'f' => Key(0xE),
            'v' => Key(0xF),
            _ => Key(NO_KEY),
        }
    }
}

impl vstd::std_specs::convert::FromSpecImpl<char> for Key {
    open spec fn obeys_from_spec() -> bool {
        true
    }

    open spec fn from_spec(c: char) -> Key {
        Key(key_code(c))
    }
}

/// Everything that can go wrong inside one engine step, surfaced to the
/// driver instead of halting the process.
#[derive(Debug, Clone, Copy, PartialEq, Eq, Structural)]
pub enum Error {
    /// The two bytes at `addr` match no defined opcode shape.
    IllegalInstruction { addr: u16, hi: u8, lo: u8 },
    /// A subroutine call found the sixteen-entry stack already full.
    StackOverflow,
    /// A return found the stack empty.
    StackUnderflow,
    /// An opcode addressed memory outside the addressable range.
    MemoryOutOfBounds,
    /// The program counter itself points outside the addressable range.
    PcOutOfRange,
    /// The display capability reported a failure.
    DisplayFailed,
    /// A program larger than the space above `PROG_START`.
    ProgramTooLarge,
}

/// The display capability the engine draws into: a 64 by 32 grid of cells,
/// written by XOR sprite blitting and cleared as a whole.
pub trait Display {
    /// The current cell grid, column-major: `grid()[x][y]`.
    spec fn grid(&self) -> Seq<Seq<bool>>;

    /// The implementation's own validity; the engine maintains it.
    spec fn wf(&self) -> bool;

    /// Blit one sprite at `(x, y)`: every set sprite bit flips its cell, and
    /// the returned flag is 1 exactly when some flip unset a cell.  A failure
    /// is reported to the driver; nothing is promised of the grid then.
    fn draw(&mut self, x: u8, y: u8, data: Vec<u8>) -> (r: Result<u8, ()>)
        requires
            old(self).wf(),
        ensures
            final(self).wf(),
            r matches Ok(flag) ==> final(self).grid() == console::blit(
                old(self).grid(),
                x as int,
                y as int,
                data@,
            ) && flag == console::collision_flag(old(self).grid(), x as int, y as int, data@),
    ;

    /// Unset every cell.
    fn clear(&mut self)
        requires
            old(self).wf(),
        ensures
            final(self).wf(),
            final(self).grid() == console::blank_grid(),
    ;
}

} // verus!
