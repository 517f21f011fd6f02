//! The two countdown timers of the machine.
//!
//! Each timer is an 8-bit counter that saturates at zero.  The driver loop
//! owns the 60 Hz cadence: it calls `decrement` once per timer tick.  The
//! sound timer is audible exactly while its value is nonzero.

use vstd::prelude::*;

verus! {

/// The sound timer: an 8-bit countdown register.  A tone is audible exactly
/// while the value is nonzero.
pub struct SoundTimer {
    v: u8,
}

impl SoundTimer {
    /// The current 8-bit value of the timer.
    pub closed spec fn value(&self) -> u8 {
        self.v
    }

    /// A fresh timer starts at zero (silent).
    pub fn new() -> (t: SoundTimer)
        ensures
            t.value() == 0,
    {
        SoundTimer { v: 0 }
    }

    /// Read the current value.
    pub fn get(&self) -> (r: u8)
        ensures
            r == self.value(),
    {
        self.v
    }

    /// Assign an 8-bit value, taking effect before the next decrement.
    pub fn set(&mut self, val: u8)
        ensures
            final(self).value() == val,
    {
        self.v = val;
    }

    /// One 60 Hz tick: count down by one, saturating at zero.
    pub fn decrement(&mut self)
        ensures
            final(self).value() == if old(self).value() > 0 {
                (old(self).value() - 1) as u8
            } else {
                0u8
            },
    {
        if self.v > 0 {
            self.v = self.v - 1;
        }
    }
}

/// The delay timer: an 8-bit countdown register read and written by the
/// engine's timer opcodes.
pub struct DelayTimer {
    v: u8,
}

impl DelayTimer {
    /// The current 8-bit value of the timer.
    pub closed spec fn value(&self) -> u8 {
        self.v
    }

    /// A fresh timer starts at zero.
    pub fn new() -> (t: DelayTimer)
        ensures
            t.value() == 0,
    {
        DelayTimer { v: 0 }
    }

    /// Read the current value.
    pub fn get(&self) -> (r: u8)
        ensures
            r == self.value(),
    {
        self.v
    }

    /// Assign an 8-bit value, taking effect before the next decrement.
    pub fn set(&mut self, val: u8)
        ensures
            final(self).value() == val,
    {
        self.v = val;
    }

    /// One 60 Hz tick: count down by one, saturating at zero.
    pub fn decrement(&mut self)
        ensures
            final(self).value() == if old(self).value() > 0 {
                (old(self).value() - 1) as u8
            } else {
                0u8
            },
    {
        if self.v > 0 {
            self.v = self.v - 1;
        }
    }
}

} // verus!
