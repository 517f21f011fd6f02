//! The instruction execution engine: fetch, decode and execute of every
//! opcode, with the register, stack and memory invariants each one keeps.
//!
//! One call to `tick` executes exactly one two-byte, big-endian instruction
//! at the current program counter.  The full machine state is mirrored by the
//! ghost record `CpuV`; `tick_rel` states, opcode by opcode, how one tick
//! relates the pre- and post-states, the memory, the display grid, the polled
//! key and the reported error.

use vstd::prelude::*;
use crate::console;
use crate::ram::Ram;
use crate::ram::MEM_SIZE;
use crate::timer::DelayTimer;
use crate::timer::SoundTimer;
use crate::Display;
use crate::Error;
use crate::Key;

verus! {

/// One decoded instruction; the variant carries the operand fields of its
/// nibble pattern.
#[derive(Debug, Clone, Copy, PartialEq, Eq, Structural)]
pub enum Instr {
    /// 00E0: clear the display.
    Cls,
    /// 00EE: return from subroutine.
    Ret,
    /// 0nnn: machine-code jump, executed as a jump to nnn.
    Sys(u16),
    /// 1nnn: jump.
    Jp(u16),
    /// 2nnn: call subroutine.
    Call(u16),
    /// 3xkk: skip next instruction if Vx == kk.
    SeImm(u8, u8),
    /// 4xkk: skip next instruction if Vx != kk.
    SneImm(u8, u8),
    /// 5xy0: skip next instruction if Vx == Vy.
    SeReg(u8, u8),
    /// 6xkk: load immediate.
    LdImm(u8, u8),
    /// 7xkk: add immediate, wrapping, no flag.
    AddImm(u8, u8),
    /// 8xy0: copy Vy into Vx.
    LdReg(u8, u8),
    /// 8xy1: Vx |= Vy.
    Or(u8, u8),
    /// 8xy2: Vx &= Vy.
    And(u8, u8),
    /// 8xy3: Vx ^= Vy.
    Xor(u8, u8),
    /// 8xy4: add with carry flag in VF.
    AddCarry(u8, u8),
    /// 8xy5: Vx -= Vy with not-borrow flag in VF.
    Sub(u8, u8),
    /// 8xy6: shift Vx right; only Vx is read and written.
    Shr(u8),
    /// 8xy7: Vx = Vy - Vx with not-borrow flag in VF.
    Subn(u8, u8),
    /// 8xyE: shift Vx left; only Vx is read and written.
    Shl(u8),
    /// 9xy0: skip next instruction if Vx != Vy.
    SneReg(u8, u8),
    /// Annn: load I.
    LdI(u16),
    /// Bnnn: jump to nnn + V0.
    JpV0(u16),
    /// Cxkk: random byte masked by kk.
    Rnd(u8, u8),
    /// Dxyn: draw an n-byte sprite from memory at I at (Vx, Vy).
    Drw(u8, u8, u8),
    /// Ex9E: skip if the current key equals Vx, consuming the latch.
    SkipKey(u8),
    /// ExA1: skip if the current key differs from Vx.
    SkipNoKey(u8),
    /// Fx07: load Vx from the delay timer.
    LdDelay(u8),
    /// Fx0A: block on a key press by re-issuing the same instruction.
    WaitKey(u8),
    /// Fx15: load the delay timer from Vx.
    SetDelay(u8),
    /// Fx18: load the sound timer from Vx.
    SetSound(u8),
    /// Fx1E: add Vx to I, wrapping, no flag.
    AddI(u8),
    /// Fx29: load I with the font glyph address of the low nibble of Vx.
    LdFont(u8),
    /// Fx33: store the BCD digits of Vx at I, I+1, I+2.
    StoreBcd(u8),
    /// Fx55: store V0..=Vx into memory at I.
    StoreRegs(u8),
    /// Fx65: load V0..=Vx from memory at I.
    LoadRegs(u8),
}

/// The 12-bit address held in an instruction's three low nibbles.
pub open spec fn spec_addr(n1: u8, n2: u8, n3: u8) -> u16 {
    (n1 as int * 256 + n2 as int * 16 + n3 as int) as u16
}

/// The 8-bit immediate held in an instruction's two low nibbles.
pub open spec fn spec_imm(k1: u8, k2: u8) -> u8 {
    (k1 as int * 16 + k2 as int) as u8
}

/// Decode two instruction bytes by their four nibbles; `None` exactly for the
/// patterns outside the fixed opcode table.
pub open spec fn spec_decode(hi: u8, lo: u8) -> Option<Instr> {
    let o1 = hi / 16;
    let o2 = hi % 16;
    let o3 = lo / 16;
    let o4 = lo % 16;
    if o1 == 0x0 && o2 == 0x0 && o3 == 0xE && o4 == 0x0 {
        Some(Instr::Cls)
    } else if o1 == 0x0 && o2 == 0x0 && o3 == 0xE && o4 == 0xE {
        Some(Instr::Ret)
    } else if o1 == 0x0 {
        Some(Instr::Sys(spec_addr(o2, o3, o4)))
    } else if o1 == 0x1 {
        Some(Instr::Jp(spec_addr(o2, o3, o4)))
    } else if o1 == 0x2 {
        Some(Instr::Call(spec_addr(o2, o3, o4)))
    } else if o1 == 0x3 {
        Some(Instr::SeImm(o2, spec_imm(o3, o4)))
    } else if o1 == 0x4 {
        Some(Instr::SneImm(o2, spec_imm(o3, o4)))
    } else if o1 == 0x5 && o4 == 0x0 {
        Some(Instr::SeReg(o2, o3))
    } else if o1 == 0x6 {
        Some(Instr::LdImm(o2, spec_imm(o3, o4)))
    } else if o1 == 0x7 {
        Some(Instr::AddImm(o2, spec_imm(o3, o4)))
    } else if o1 == 0x8 && o4 == 0x0 {
        Some(Instr::LdReg(o2, o3))
    } else if o1 == 0x8 && o4 == 0x1 {
        Some(Instr::Or(o2, o3))
    } else if o1 == 0x8 && o4 == 0x2 {
        Some(Instr::And(o2, o3))
    } else if o1 == 0x8 && o4 == 0x3 {
        Some(Instr::Xor(o2, o3))
    } else if o1 == 0x8 && o4 == 0x4 {
        Some(Instr::AddCarry(o2, o3))
    } else if o1 == 0x8 && o4 == 0x5 {
        Some(Instr::Sub(o2, o3))
    } else if o1 == 0x8 && o4 == 0x6 {
        Some(Instr::Shr(o2))
    } else if o1 == 0x8 && o4 == 0x7 {
        Some(Instr::Subn(o2, o3))
    } else if o1 == 0x8 && o4 == 0xE {
        Some(Instr::Shl(o2))
    } else if o1 == 0x9 && o4 == 0x0 {
        Some(Instr::SneReg(o2, o3))
    } else if o1 == 0xA {
        Some(Instr::LdI(spec_addr(o2, o3, o4)))
    } else if o1 == 0xB {
        Some(Instr::JpV0(spec_addr(o2, o3, o4)))
    } else if o1 == 0xC {
        Some(Instr::Rnd(o2, spec_imm(o3, o4)))
    } else if o1 == 0xD {
        Some(Instr::Drw(o2, o3, o4))
    } else if o1 == 0xE && o3 == 0x9 && o4 == 0xE {
        Some(Instr::SkipKey(o2))
    } else if o1 == 0xE && o3 == 0xA && o4 == 0x1 {
        Some(Instr::SkipNoKey(o2))
    } else if o1 == 0xF && o3 == 0x0 && o4 == 0x7 {
        Some(Instr::LdDelay(o2))
    } else if o1 == 0xF && o3 == 0x0 && o4 == 0xA {
        Some(Instr::WaitKey(o2))
    } else if o1 == 0xF && o3 == 0x1 && o4 == 0x5 {
        Some(Instr::SetDelay(o2))
    } else if o1 == 0xF && o3 == 0x1 && o4 == 0x8 {
        Some(Instr::SetSound(o2))
    } else if o1 == 0xF && o3 == 0x1 && o4 == 0xE {
        Some(Instr::AddI(o2))
    } else if o1 == 0xF && o3 == 0x2 && o4 == 0x9 {
        Some(Instr::LdFont(o2))
    } else if o1 == 0xF && o3 == 0x3 && o4 == 0x3 {
        Some(Instr::StoreBcd(o2))
    } else if o1 == 0xF && o3 == 0x5 && o4 == 0x5 {
        Some(Instr::StoreRegs(o2))
    } else if o1 == 0xF && o3 == 0x6 && o4 == 0x5 {
        Some(Instr::LoadRegs(o2))
    } else {
        None
    }
}

/// Every decoded instruction carries in-range operands: register indices
/// below 16 and addresses below 0x1000.
pub open spec fn instr_wf(ins: Instr) -> bool {
    match ins {
        Instr::Cls => true,
        Instr::Ret => true,
        Instr::Sys(nnn) => nnn < 0x1000,
        Instr::Jp(nnn) => nnn < 0x1000,
        Instr::Call(nnn) => nnn < 0x1000,
        Instr::SeImm(x, _kk) => x < 16,
        Instr::SneImm(x, _kk) => x < 16,
        Instr::SeReg(x, y) => x < 16 && y < 16,
        Instr::LdImm(x, _kk) => x < 16,
        Instr::AddImm(x, _kk) => x < 16,
        Instr::LdReg(x, y) => x < 16 && y < 16,
        Instr::Or(x, y) => x < 16 && y < 16,
        Instr::And(x, y) => x < 16 && y < 16,
        Instr::Xor(x, y) => x < 16 && y < 16,
        Instr::AddCarry(x, y) => x < 16 && y < 16,
        Instr::Sub(x, y) => x < 16 && y < 16,
        Instr::Shr(x) => x < 16,
        Instr::Subn(x, y) => x < 16 && y < 16,
        Instr::Shl(x) => x < 16,
        Instr::SneReg(x, y) => x < 16 && y < 16,
        Instr::LdI(nnn) => nnn < 0x1000,
        Instr::JpV0(nnn) => nnn < 0x1000,
        Instr::Rnd(x, _kk) => x < 16,
        Instr::Drw(x, y, n) => x < 16 && y < 16 && n < 16,
        Instr::SkipKey(x) => x < 16,
        Instr::SkipNoKey(x) => x < 16,
        Instr::LdDelay(x) => x < 16,
        Instr::WaitKey(x) => x < 16,
        Instr::SetDelay(x) => x < 16,
        Instr::SetSound(x) => x < 16,
        Instr::AddI(x) => x < 16,
        Instr::LdFont(x) => x < 16,
        Instr::StoreBcd(x) => x < 16,
        Instr::StoreRegs(x) => x < 16,
        Instr::LoadRegs(x) => x < 16,
    }
}

/// Whatever two bytes decode to is a well-formed instruction.
pub proof fn lemma_decode_wf(hi: u8, lo: u8)
    ensures
        spec_decode(hi, lo) matches Some(ins) ==> instr_wf(ins),
{
}

/// The 12-bit address of an instruction's three low nibbles.
fn addr(n1: u8, n2: u8, n3: u8) -> (r: u16)
    requires
        n1 < 16,
        n2 < 16,
        n3 < 16,
    ensures
        r == spec_addr(n1, n2, n3),
{
    (n1 as u16) * 256 + (n2 as u16) * 16 + (n3 as u16)
}

/// The 8-bit immediate of an instruction's two low nibbles.
fn imm(k1: u8, k2: u8) -> (r: u8)
    requires
        k1 < 16,
        k2 < 16,
    ensures
        r == spec_imm(k1, k2),
{
    k1 * 16 + k2
}

/// The memory address of the font glyph for a value's low nibble: each of the
/// sixteen glyphs is five bytes long.
pub open spec fn spec_fontaddr(v: u8) -> u16 {
    ((v as int % 16) * 5) as u16
}

/// Font glyph address of the low nibble of `v`.
pub fn fontaddr(v: u8) -> (r: u16)
    ensures
        r == spec_fontaddr(v),
{
    ((v % 16) as u16) * 5
}

/// Decode two instruction bytes, `None` exactly for the patterns outside the
/// fixed opcode table.
pub fn decode(hi: u8, lo: u8) -> (r: Option<Instr>)
    ensures
        r == spec_decode(hi, lo),
{
    let o1 = hi / 16;
    let o2 = hi % 16;
    let o3 = lo / 16;
    let o4 = lo % 16;
    match (o1, o2, o3, o4) {
        (0x0, 0x0, 0xE, 0x0) => Some(Instr::Cls),
        (0x0, 0x0, 0xE, 0xE) => Some(Instr::Ret),
        (0x0, n1, n2, n3) => Some(Instr::Sys(addr(n1, n2, n3))),
        (0x1, n1, n2, n3) => Some(Instr::Jp(addr(n1, n2, n3))),
        (0x2, n1, n2, n3) => Some(Instr::Call(addr(n1, n2, n3))),
        (0x3, x, k1, k2) => Some(Instr::SeImm(x, imm(k1, k2))),
        (0x4, x, k1, k2) => Some(Instr::SneImm(x, imm(k1, k2))),
        (0x5, x, y, 0x0) => Some(Instr::SeReg(x, y)),
        (0x6, x, k1, k2) => Some(Instr::LdImm(x, imm(k1, k2))),
        (0x7, x, k1, k2) => Some(Instr::AddImm(x, imm(k1, k2))),
        (0x8, x, y, 0x0) => Some(Instr::LdReg(x, y)),
        (0x8, x, y, 0x1) => Some(Instr::Or(x, y)),
        (0x8, x, y, 0x2) => Some(Instr::And(x, y)),
        (0x8, x, y, 0x3) => Some(Instr::Xor(x, y)),
        (0x8, x, y, 0x4) => Some(Instr::AddCarry(x, y)),
        (0x8, x, y, 0x5) => Some(Instr::Sub(x, y)),
        (0x8, x, _y, 0x6) => Some(Instr::Shr(x)),
        (0x8, x, y, 0x7) => Some(Instr::Subn(x, y)),
        (0x8, x, _y, 0xE) => Some(Instr::Shl(x)),
        (0x9, x, y, 0x0) => Some(Instr::SneReg(x, y)),
        (0xA, n1, n2, n3) => Some(Instr::LdI(addr(n1, n2, n3))),
        (0xB, n1, n2, n3) => Some(Instr::JpV0(addr(n1, n2, n3))),
        (0xC, x, k1, k2) => Some(Instr::Rnd(x, imm(k1, k2))),
        (0xD, x, y, n) => Some(Instr::Drw(x, y, n)),
        (0xE, x, 0x9, 0xE) => Some(Instr::SkipKey(x)),
        (0xE, x, 0xA, 0x1) => Some(Instr::SkipNoKey(x)),
        (0xF, x, 0x0, 0x7) => Some(Instr::LdDelay(x)),
        (0xF, x, 0x0, 0xA) => Some(Instr::WaitKey(x)),
        (0xF, x, 0x1, 0x5) => Some(Instr::SetDelay(x)),
        (0xF, x, 0x1, 0x8) => Some(Instr::SetSound(x)),
        (0xF, x, 0x1, 0xE) => Some(Instr::AddI(x)),
        (0xF, x, 0x2, 0x9) => Some(Instr::LdFont(x)),
        (0xF, x, 0x3, 0x3) => Some(Instr::StoreBcd(x)),
        (0xF, x, 0x5, 0x5) => Some(Instr::StoreRegs(x)),
        (0xF, x, 0x6, 0x5) => Some(Instr::LoadRegs(x)),
        _ => None,
    }
}

/// The ghost mirror of the whole engine state.
#[verifier::ext_equal]
pub struct CpuV {
    /// The sixteen general-purpose registers V0..VF.
    pub v: Seq<u8>,
    /// The 16-bit index register I.
    pub i: u16,
    /// The sixteen return-address slots.
    pub stack: Seq<u16>,
    /// The stack pointer: number of live return addresses.
    pub sp: u16,
    /// The program counter.
    pub pc: u16,
    /// The delay timer value.
    pub dt: u8,
    /// The sound timer value.
    pub st: u8,
    /// The latched key, kept across ticks until consumed.
    pub key: Option<Key>,
}

impl CpuV {
    /// The same state with a new program counter.
    pub open spec fn with_pc(self, pc: u16) -> CpuV {
        CpuV { pc, ..self }
    }

    /// The same state with one register written and a new program counter.
    pub open spec fn with_reg(self, x: int, val: u8, pc: u16) -> CpuV {
        CpuV { v: self.v.update(x, val), pc, ..self }
    }
}

/// The program counter advanced past the current instruction.
pub open spec fn pc2(p: CpuV) -> u16 {
    (p.pc + 2) as u16
}

/// The program counter advanced past the current and the next instruction.
pub open spec fn pc4(p: CpuV) -> u16 {
    (p.pc + 4) as u16
}

/// An engine state is well formed when its register file and stack have their
/// fixed sizes, the stack pointer is within range and every stored return
/// address lies inside the program region.
pub open spec fn cpu_wf(p: CpuV) -> bool {
    &&& p.v.len() == 16
    &&& p.stack.len() == 16
    &&& p.sp <= 16
    &&& forall|j: int| 0 <= j < 16 ==> #[trigger] p.stack[j] <= 0xFFE
}

/// The state a fresh engine starts in: registers, index register and stack
/// zeroed, PC at the program start, timers at zero, no key latched.
pub open spec fn init_cpu() -> CpuV {
    CpuV {
        v: Seq::new(16, |j: int| 0u8),
        i: 0,
        stack: Seq::new(16, |j: int| 0u16),
        sp: 0,
        pc: 0x200,
        dt: 0,
        st: 0,
        key: None,
    }
}

/// The key the engine works with this tick: a freshly polled key wins over
/// the latch, otherwise the latch is reused.
pub open spec fn latch(input: Option<Key>, prev: Option<Key>) -> Option<Key> {
    if input is Some {
        input
    } else {
        prev
    }
}

/// An 8-bit sum reduced modulo 256.
pub open spec fn sum_val(a: u8, b: u8) -> u8 {
    ((a + b) % 256) as u8
}

/// The carry flag of an 8-bit sum: 1 exactly when the 9-bit sum exceeds 255.
pub open spec fn sum_flag(a: u8, b: u8) -> u8 {
    if a + b > 255 {
        1u8
    } else {
        0u8
    }
}

/// An 8-bit difference reduced modulo 256.
pub open spec fn diff_val(a: u8, b: u8) -> u8 {
    ((a - b) % 256) as u8
}

/// The not-borrow flag of an 8-bit difference: 1 exactly when the subtraction
/// does not underflow.
pub open spec fn diff_flag(a: u8, b: u8) -> u8 {
    if a >= b {
        1u8
    } else {
        0u8
    }
}

/// A value doubled, wrapping at 256.
pub open spec fn shl_val(a: u8) -> u8 {
    ((a * 2) % 256) as u8
}

/// The bit a left shift drops: the most significant bit.
pub open spec fn shl_flag(a: u8) -> u8 {
    a / 128
}

/// A value halved.
pub open spec fn shr_val(a: u8) -> u8 {
    a / 2
}

/// The bit a right shift drops: the least significant bit.
pub open spec fn shr_flag(a: u8) -> u8 {
    a % 2
}

/// The index register after Fx1E: I plus Vx, wrapping at 16 bits.
pub open spec fn add_i_val(i: u16, v: u8) -> u16 {
    ((i + v) % 0x10000) as u16
}

/// A saturating 60 Hz timer step.
pub open spec fn timer_dec(v: u8) -> u8 {
    if v > 0 {
        (v - 1) as u8
    } else {
        0u8
    }
}

/// The state after a subroutine call to `nnn`: the current program counter
/// pushed, the stack pointer raised, control at `nnn`.
pub open spec fn call_step(p: CpuV, nnn: u16) -> CpuV {
    CpuV { stack: p.stack.update(p.sp as int, p.pc), sp: (p.sp + 1) as u16, pc: nnn, ..p }
}

/// The state after a return: the stack pointer lowered and control at the
/// instruction after the popped call site.
pub open spec fn ret_step(p: CpuV) -> CpuV {
    CpuV { sp: (p.sp - 1) as u16, pc: (p.stack[p.sp as int - 1] + 2) as u16, ..p }
}

/// The state after an arithmetic opcode that writes VF first, then Vx.
pub open spec fn alu_step(p: CpuV, x: int, flag: u8, val: u8) -> CpuV {
    CpuV { v: p.v.update(15, flag).update(x, val), pc: pc2(p), ..p }
}

/// The state after 8xy6: VF takes Vx's dropped low bit first, then Vx is
/// halved; with x = 15 the halving reads the freshly written flag.
pub open spec fn shr_step(p: CpuV, x: int) -> CpuV {
    let s1 = p.v.update(15, shr_flag(p.v[x]));
    CpuV { v: s1.update(x, shr_val(s1[x])), pc: pc2(p), ..p }
}

/// The state after 8xyE: VF takes Vx's dropped high bit first, then Vx is
/// doubled; with x = 15 the doubling reads the freshly written flag.
pub open spec fn shl_step(p: CpuV, x: int) -> CpuV {
    let s1 = p.v.update(15, shl_flag(p.v[x]));
    CpuV { v: s1.update(x, shl_val(s1[x])), pc: pc2(p), ..p }
}

/// Memory after Fx33: the decimal digits of `vx` at `i`, `i+1`, `i+2`.
pub open spec fn bcd_mem(m: Seq<u8>, i: int, vx: u8) -> Seq<u8> {
    m.update(i, (vx as int / 100) as u8).update(i + 1, ((vx as int / 10) % 10) as u8).update(
        i + 2,
        (vx as int % 10) as u8,
    )
}

/// Memory after Fx55: registers V0..=Vx stored from address `i`.
pub open spec fn store_regs_mem(m: Seq<u8>, i: int, v: Seq<u8>, x: int) -> Seq<u8> {
    Seq::new(
        m.len(),
        |a: int|
            if i <= a <= i + x {
                v[a - i]
            } else {
                m[a]
            },
    )
}

/// The register file after Fx65: V0..=Vx loaded from address `i`.
pub open spec fn load_regs_v(v: Seq<u8>, m: Seq<u8>, i: int, x: int) -> Seq<u8> {
    Seq::new(
        16,
        |j: int|
            if j <= x {
                m[i + j]
            } else {
                v[j]
            },
    )
}

/// How executing one decoded instruction relates the pre-state `p` to the
/// post-state `q`, the memory `m0` to `m1`, the display grid `g0` to `g1`,
/// under the polled key `input` and with outcome `r`.
pub open spec fn exec_rel(
    ins: Instr,
    p: CpuV,
    q: CpuV,
    m0: Seq<u8>,
    m1: Seq<u8>,
    g0: Seq<Seq<bool>>,
    g1: Seq<Seq<bool>>,
    input: Option<Key>,
    r: Result<(), Error>,
) -> bool {
    match ins {
        Instr::Cls => r == Ok::<(), Error>(()) && m1 == m0 && g1 == console::blank_grid() && q
            == p.with_pc(pc2(p)),
        Instr::Ret => m1 == m0 && g1 == g0 && if p.sp == 0 {
            r == Err::<(), Error>(Error::StackUnderflow) && q == p
        } else {
            r == Ok::<(), Error>(()) && q == ret_step(p)
        },
        Instr::Sys(nnn) => r == Ok::<(), Error>(()) && m1 == m0 && g1 == g0 && q == p.with_pc(nnn),
        Instr::Jp(nnn) => r == Ok::<(), Error>(()) && m1 == m0 && g1 == g0 && q == p.with_pc(nnn),
        Instr::Call(nnn) => m1 == m0 && g1 == g0 && if p.sp >= 16 {
            r == Err::<(), Error>(Error::StackOverflow) && q == p
        } else {
            r == Ok::<(), Error>(()) && q == call_step(p, nnn)
        },
        Instr::SeImm(x, kk) => r == Ok::<(), Error>(()) && m1 == m0 && g1 == g0 && q == p.with_pc(
            if p.v[x as int] == kk {
                pc4(p)
            } else {
                pc2(p)
            },
        ),
        Instr::SneImm(x, kk) => r == Ok::<(), Error>(()) && m1 == m0 && g1 == g0 && q == p.with_pc(
            if p.v[x as int] != kk {
                pc4(p)
            } else {
                pc2(p)
            },
        ),
        Instr::SeReg(x, y) => r == Ok::<(), Error>(()) && m1 == m0 && g1 == g0 && q == p.with_pc(
            if p.v[x as int] == p.v[y as int] {
                pc4(p)
            } else {
                pc2(p)
            },
        ),
        Instr::LdImm(x, kk) => r == Ok::<(), Error>(()) && m1 == m0 && g1 == g0 && q == p.with_reg(
            x as int,
            kk,
            pc2(p),
        ),
        Instr::AddImm(x, kk) => r == Ok::<(), Error>(()) && m1 == m0 && g1 == g0 && q
            == p.with_reg(x as int, sum_val(p.v[x as int], kk), pc2(p)),
        Instr::LdReg(x, y) => r == Ok::<(), Error>(()) && m1 == m0 && g1 == g0 && q == p.with_reg(
            x as int,
            p.v[y as int],
            pc2(p),
        ),
        Instr::Or(x, y) => r == Ok::<(), Error>(()) && m1 == m0 && g1 == g0 && q == p.with_reg(
            x as int,
            p.v[x as int] | p.v[y as int],
            pc2(p),
        ),
        Instr::And(x, y) => r == Ok::<(), Error>(()) && m1 == m0 && g1 == g0 && q == p.with_reg(
            x as int,
            p.v[x as int] & p.v[y as int],
            pc2(p),
        ),
        Instr::Xor(x, y) => r == Ok::<(), Error>(()) && m1 == m0 && g1 == g0 && q == p.with_reg(
            x as int,
            p.v[x as int] ^ p.v[y as int],
            pc2(p),
        ),
        Instr::AddCarry(x, y) => r == Ok::<(), Error>(()) && m1 == m0 && g1 == g0 && q == alu_step(
            p,
            x as int,
            sum_flag(p.v[x as int], p.v[y as int]),
            sum_val(p.v[x as int], p.v[y as int]),
        ),
        Instr::Sub(x, y) => r == Ok::<(), Error>(()) && m1 == m0 && g1 == g0 && q == alu_step(
            p,
            x as int,
            diff_flag(p.v[x as int], p.v[y as int]),
            diff_val(p.v[x as int], p.v[y as int]),
        ),
        Instr::Shr(x) => r == Ok::<(), Error>(()) && m1 == m0 && g1 == g0 && q == shr_step(
            p,
            x as int,
        ),
        Instr::Subn(x, y) => r == Ok::<(), Error>(()) && m1 == m0 && g1 == g0 && q == alu_step(
            p,
            x as int,
            diff_flag(p.v[y as int], p.v[x as int]),
            diff_val(p.v[y as int], p.v[x as int]),
        ),
        Instr::Shl(x) => r == Ok::<(), Error>(()) && m1 == m0 && g1 == g0 && q == shl_step(
            p,
            x as int,
        ),
        Instr::SneReg(x, y) => r == Ok::<(), Error>(()) && m1 == m0 && g1 == g0 && q == p.with_pc(
            if p.v[x as int] != p.v[y as int] {
                pc4(p)
            } else {
                pc2(p)
            },
        ),
        Instr::LdI(nnn) => r == Ok::<(), Error>(()) && m1 == m0 && g1 == g0 && q == (CpuV {
            i: nnn,
            pc: pc2(p),
            ..p
        }),
        Instr::JpV0(nnn) => r == Ok::<(), Error>(()) && m1 == m0 && g1 == g0 && q == p.with_pc(
            (nnn + p.v[0]) as u16,
        ),
        Instr::Rnd(x, kk) => r == Ok::<(), Error>(()) && m1 == m0 && g1 == g0 && (exists|b: u8|
            q == p.with_reg(x as int, b & kk, pc2(p))),
        Instr::Drw(x, y, n) => m1 == m0 && if p.i as int + n as int > MEM_SIZE {
            r == Err::<(), Error>(Error::MemoryOutOfBounds) && q == p && g1 == g0
        } else {
            let sprite = m0.subrange(p.i as int, p.i as int + n as int);
            let vx = p.v[x as int];
            let vy = p.v[y as int];
            (r == Ok::<(), Error>(()) && g1 == console::blit(g0, vx as int, vy as int, sprite) && q
                == p.with_reg(
                15,
                console::collision_flag(g0, vx as int, vy as int, sprite),
                pc2(p),
            )) || (r == Err::<(), Error>(Error::DisplayFailed) && q == p)
        },
        Instr::SkipKey(x) => r == Ok::<(), Error>(()) && m1 == m0 && g1 == g0 && (match latch(
            input,
            p.key,
        ) {
            Some(kk) => if kk.0 == p.v[x as int] {
                q == (CpuV { key: None, pc: pc4(p), ..p })
            } else {
                q == (CpuV { key: Some(kk), pc: pc2(p), ..p })
            },
            None => q == p.with_pc(pc2(p)),
        }),
        Instr::SkipNoKey(x) => r == Ok::<(), Error>(()) && m1 == m0 && g1 == g0 && (match latch(
            input,
            p.key,
        ) {
            Some(kk) => if kk.0 == p.v[x as int] {
                q == (CpuV { key: None, pc: pc2(p), ..p })
            } else {
                q == (CpuV { key: Some(kk), pc: pc4(p), ..p })
            },
            None => q == p.with_pc(pc4(p)),
        }),
        Instr::LdDelay(x) => r == Ok::<(), Error>(()) && m1 == m0 && g1 == g0 && q == p.with_reg(
            x as int,
            p.dt,
            pc2(p),
        ),
        Instr::WaitKey(x) => r == Ok::<(), Error>(()) && m1 == m0 && g1 == g0 && (match latch(
            input,
            p.key,
        ) {
            Some(kk) => q == (CpuV {
                v: p.v.update(x as int, kk.0),
                key: Some(kk),
                pc: pc2(p),
                ..p
            }),
            None => q == p,
        }),
        Instr::SetDelay(x) => r == Ok::<(), Error>(()) && m1 == m0 && g1 == g0 && q == (CpuV {
            dt: p.v[x as int],
            pc: pc2(p),
            ..p
        }),
        Instr::SetSound(x) => r == Ok::<(), Error>(()) && m1 == m0 && g1 == g0 && q == (CpuV {
            st: p.v[x as int],
            pc: pc2(p),
            ..p
        }),
        Instr::AddI(x) => r == Ok::<(), Error>(()) && m1 == m0 && g1 == g0 && q == (CpuV {
            i: add_i_val(p.i, p.v[x as int]),
            pc: pc2(p),
            ..p
        }),
        Instr::LdFont(x) => r == Ok::<(), Error>(()) && m1 == m0 && g1 == g0 && q == (CpuV {
            i: spec_fontaddr(p.v[x as int]),
            pc: pc2(p),
            ..p
        }),
        Instr::StoreBcd(x) => g1 == g0 && if p.i as int + 2 >= MEM_SIZE {
            r == Err::<(), Error>(Error::MemoryOutOfBounds) && q == p && m1 == m0
        } else {
            r == Ok::<(), Error>(()) && m1 == bcd_mem(m0, p.i as int, p.v[x as int]) && q
                == p.with_pc(pc2(p))
        },
        Instr::StoreRegs(x) => g1 == g0 && if p.i as int + x as int >= MEM_SIZE {
            r == Err::<(), Error>(Error::MemoryOutOfBounds) && q == p && m1 == m0
        } else {
            r == Ok::<(), Error>(()) && m1 == store_regs_mem(m0, p.i as int, p.v, x as int) && q
                == p.with_pc(pc2(p))
        },
        Instr::LoadRegs(x) => g1 == g0 && m1 == m0 && if p.i as int + x as int >= MEM_SIZE {
            r == Err::<(), Error>(Error::MemoryOutOfBounds) && q == p
        } else {
            r == Ok::<(), Error>(()) && q == (CpuV {
                v: load_regs_v(p.v, m0, p.i as int, x as int),
                pc: pc2(p),
                ..p
            })
        },
    }
}

/// How one whole tick relates pre- and post-state: fetch at the program
/// counter, decode, then `exec_rel` for the decoded instruction; a program
/// counter outside memory or an unmatched pattern is a reported error that
/// changes nothing.
pub open spec fn tick_rel(
    p: CpuV,
    q: CpuV,
    m0: Seq<u8>,
    m1: Seq<u8>,
    g0: Seq<Seq<bool>>,
    g1: Seq<Seq<bool>>,
    input: Option<Key>,
    r: Result<(), Error>,
) -> bool {
    if p.pc >= 0xFFF {
        r == Err::<(), Error>(Error::PcOutOfRange) && q == p && m1 == m0 && g1 == g0
    } else {
        let hi = m0[p.pc as int];
        let lo = m0[p.pc as int + 1];
        match spec_decode(hi, lo) {
            Some(ins) => exec_rel(ins, p, q, m0, m1, g0, g1, input, r),
            None => r == Err::<(), Error>(Error::IllegalInstruction { addr: p.pc, hi, lo }) && q
                == p && m1 == m0 && g1 == g0,
        }
    }
}

/// A chain of `n` successful ticks with no key input: how a whole run relates
/// machine state, memory and display grid across `n` instructions.
pub open spec fn steps_rel(
    p: CpuV,
    q: CpuV,
    m0: Seq<u8>,
    m1: Seq<u8>,
    g0: Seq<Seq<bool>>,
    g1: Seq<Seq<bool>>,
    n: nat,
) -> bool
    decreases n,
{
    if n == 0 {
        q == p && m1 == m0 && g1 == g0
    } else {
        exists|pm: CpuV, mm: Seq<u8>, gm: Seq<Seq<bool>>|
            tick_rel(p, pm, m0, mm, g0, gm, None, Ok(())) && steps_rel(
                pm,
                q,
                mm,
                m1,
                gm,
                g1,
                (n - 1) as nat,
            )
    }
}

/// A chain of ticks extends by one more successful tick at its end.
proof fn lemma_steps_snoc(
    p: CpuV,
    pm: CpuV,
    q: CpuV,
    m0: Seq<u8>,
    mm: Seq<u8>,
    m1: Seq<u8>,
    g0: Seq<Seq<bool>>,
    gm: Seq<Seq<bool>>,
    g1: Seq<Seq<bool>>,
    n: nat,
)
    requires
        steps_rel(p, pm, m0, mm, g0, gm, n),
        tick_rel(pm, q, mm, m1, gm, g1, None, Ok(())),
    ensures
        steps_rel(p, q, m0, m1, g0, g1, n + 1),
    decreases n,
{
    if n == 0 {
        assert(steps_rel(q, q, m1, m1, g1, g1, 0));
    } else {
        let (pa, ma, ga) = choose|pa: CpuV, ma: Seq<u8>, ga: Seq<Seq<bool>>|
            tick_rel(p, pa, m0, ma, g0, ga, None, Ok(())) && steps_rel(
                pa,
                pm,
                ma,
                mm,
                ga,
                gm,
                (n - 1) as nat,
            );
        lemma_steps_snoc(pa, pm, q, ma, mm, m1, ga, gm, g1, (n - 1) as nat);
    }
}

/// Relies on rand::random for the byte a Cxkk opcode masks; any byte may come
/// back, so nothing is promised of the value.
#[verifier::external_body]
fn random_byte() -> u8 {
    rand::random()
}

/// The execution engine: registers, index register, program counter, call
/// stack, the two timers and the key latch.
pub struct Cpu {
    v: Vec<u8>,
    i: u16,
    stack: Vec<u16>,
    st: SoundTimer,
    dt: DelayTimer,
    /// The program counter, even-aligned while programs keep to two-byte
    /// instructions.
    pub pc: u16,
    sp: u16,
    key: Option<Key>,
}

impl View for Cpu {
    type V = CpuV;

    closed spec fn view(&self) -> CpuV {
        CpuV {
            v: self.v@,
            i: self.i,
            stack: self.stack@,
            sp: self.sp,
            pc: self.pc,
            dt: self.dt.value(),
            st: self.st.value(),
            key: self.key,
        }
    }
}

impl Cpu {
    /// The engine's representation invariant, see `cpu_wf`.
    pub open spec fn wf(&self) -> bool {
        cpu_wf(self@)
    }

    /// A fresh engine in the canonical start state.
    pub fn new() -> (c: Cpu)
        ensures
            c.wf(),
            c@ == init_cpu(),
    {
        let mut v: Vec<u8> = Vec::new();
        let mut j: usize = 0;
        while j < 16
            invariant
                0 <= j <= 16,
                v@.len() == j,
                forall|t: int| 0 <= t < j ==> v@[t] == 0u8,
            decreases 16 - j,
        {
            v.push(0);
            j = j + 1;
        }
        let mut stack: Vec<u16> = Vec::new();
        let mut j2: usize = 0;
        while j2 < 16
            invariant
                0 <= j2 <= 16,
                stack@.len() == j2,
                forall|t: int| 0 <= t < j2 ==> stack@[t] == 0u16,
            decreases 16 - j2,
        {
            stack.push(0);
            j2 = j2 + 1;
        }
        let c = Cpu {
            v,
            i: 0,
            stack,
            st: SoundTimer::new(),
            dt: DelayTimer::new(),
            pc: 0x200,
            sp: 0,
            key: None,
        };
        proof {
            assert(c@.v =~= init_cpu().v);
            assert(c@.stack =~= init_cpu().stack);
            assert(c@ =~= init_cpu());
        }
        c
    }

    /// Register Vx.
    pub fn reg(&self, x: u8) -> (r: u8)
        requires
            self.wf(),
            x < 16,
        ensures
            r == self@.v[x as int],
    {
        self.v[x as usize]
    }

    /// The program counter.
    pub fn pc(&self) -> (r: u16)
        ensures
            r == self@.pc,
    {
        self.pc
    }

    /// Point the program counter somewhere else; the next tick fetches there.
    pub fn set_pc(&mut self, pc: u16)
        ensures
            final(self)@ == old(self)@.with_pc(pc),
    {
        self.pc = pc;
        proof {
            assert(self@ =~= old(self)@.with_pc(pc));
        }
    }

    /// The index register I.
    pub fn index_reg(&self) -> (r: u16)
        ensures
            r == self@.i,
    {
        self.i
    }

    /// The stack pointer.
    pub fn stack_ptr(&self) -> (r: u16)
        ensures
            r == self@.sp,
    {
        self.sp
    }

    /// The delay timer's value.
    pub fn delay(&self) -> (r: u8)
        ensures
            r == self@.dt,
    {
        self.dt.get()
    }

    /// The sound timer's value; a tone is audible exactly while it is
    /// nonzero.
    pub fn sound(&self) -> (r: u8)
        ensures
            r == self@.st,
    {
        self.st.get()
    }

    /// The latched key, if any.
    pub fn latched_key(&self) -> (k: Option<Key>)
        ensures
            k == self@.key,
    {
        self.key
    }

    /// One 60 Hz step of both timers: each counts down by one, saturating at
    /// zero.  The driver loop owns the cadence.
    pub fn tick_timers(&mut self)
        requires
            old(self).wf(),
        ensures
            final(self).wf(),
            final(self)@ == (CpuV {
                dt: timer_dec(old(self)@.dt),
                st: timer_dec(old(self)@.st),
                ..old(self)@
            }),
    {
        self.dt.decrement();
        self.st.decrement();
        proof {
            assert(self@ =~= (CpuV {
                dt: timer_dec(old(self)@.dt),
                st: timer_dec(old(self)@.st),
                ..old(self)@
            }));
        }
    }

    /// The key this tick works with: a freshly polled key is latched and
    /// wins; otherwise the latch is reused.
    fn poll_key(&mut self, input: Option<Key>) -> (k: Option<Key>)
        ensures
            k == latch(input, old(self)@.key),
            final(self)@ == (CpuV { key: latch(input, old(self)@.key), ..old(self)@ }),
    {
        let k = match input {
            Some(kk) => {
                self.key = Some(kk);
                Some(kk)
            },
            None => self.key,
        };
        proof {
            assert(self@ =~= (CpuV { key: latch(input, old(self)@.key), ..old(self)@ }));
        }
        k
    }

    /// Execute exactly one instruction at the current program counter: fetch
    /// two bytes, decode, apply the opcode's effects to registers, memory,
    /// timers, display and key latch, and advance the program counter by its
    /// control-flow class.  Every failure is a reported error that leaves the
    /// whole state unchanged.
    #[verifier::rlimit(100)]
    #[verifier::spinoff_prover]
    pub fn tick<D: Display>(
        &mut self,
        ram: &mut Ram,
        dsp: &mut D,
        input: Option<Key>,
    ) -> (r: Result<(), Error>)
        requires
            old(self).wf(),
            old(ram).wf(),
            old(dsp).wf(),
        ensures
            final(self).wf(),
            final(ram).wf(),
            final(dsp).wf(),
            tick_rel(
                old(self)@,
                final(self)@,
                old(ram)@,
                final(ram)@,
                old(dsp).grid(),
                final(dsp).grid(),
                input,
                r,
            ),
    {
        let ghost p = self@;
        let ghost m0 = ram@;
        let ghost g0 = dsp.grid();
        if self.pc >= 0xFFF {
            return Err(Error::PcOutOfRange);
        }
        let pc = self.pc as usize;
        let hi = ram.get(pc);
        let lo = ram.get(pc + 1);
        let ins = match decode(hi, lo) {
            Some(ins) => ins,
            None => {
                return Err(Error::IllegalInstruction { addr: self.pc, hi, lo });
            },
        };
        proof {
            lemma_decode_wf(hi, lo);
        }
        match ins {
            Instr::Cls => {
                dsp.clear();
                self.pc = self.pc + 2;
                proof {
                    assert(self@ =~= p.with_pc(pc2(p)));
                }
                Ok(())
            },
            Instr::Ret => {
                if self.sp == 0 {
                    return Err(Error::StackUnderflow);
                }
                let ret = self.stack[(self.sp - 1) as usize];
                self.sp = self.sp - 1;
                self.pc = ret + 2;
                proof {
                    assert(self@ =~= ret_step(p));
                }
                Ok(())
            },
            Instr::Sys(nnn) => {
                self.pc = nnn;
                proof {
                    assert(self@ =~= p.with_pc(nnn));
                }
                Ok(())
            },
            Instr::Jp(nnn) => {
                self.pc = nnn;
                proof {
                    assert(self@ =~= p.with_pc(nnn));
                }
                Ok(())
            },
            Instr::Call(nnn) => {
                if self.sp >= 16 {
                    return Err(Error::StackOverflow);
                }
                self.stack[self.sp as usize] = self.pc;
                self.sp = self.sp + 1;
                self.pc = nnn;
                proof {
                    assert(self@ =~= call_step(p, nnn));
                }
                Ok(())
            },
            Instr::SeImm(x, kk) => {
                if self.v[x as usize] == kk {
                    self.pc = self.pc + 4;
                } else {
                    self.pc = self.pc + 2;
                }
                proof {
                    assert(self@ =~= p.with_pc(
                        if p.v[x as int] == kk {
                            pc4(p)
                        } else {
                            pc2(p)
                        },
                    ));
                }
                Ok(())
            },
            Instr::SneImm(x, kk) => {
                if self.v[x as usize] != kk {
                    self.pc = self.pc + 4;
                } else {
                    self.pc = self.pc + 2;
                }
                proof {
                    assert(self@ =~= p.with_pc(
                        if p.v[x as int] != kk {
                            pc4(p)
                        } else {
                            pc2(p)
                        },
                    ));
                }
                Ok(())
            },
            Instr::SeReg(x, y) => {
                if self.v[x as usize] == self.v[y as usize] {
                    self.pc = self.pc + 4;
                } else {
                    self.pc = self.pc + 2;
                }
                proof {
                    assert(self@ =~= p.with_pc(
                        if p.v[x as int] == p.v[y as int] {
                            pc4(p)
                        } else {
                            pc2(p)
                        },
                    ));
                }
                Ok(())
            },
            Instr::LdImm(x, kk) => {
                self.v[x as usize] = kk;
                self.pc = self.pc + 2;
                proof {
                    assert(self@ =~= p.with_reg(x as int, kk, pc2(p)));
                }
                Ok(())
            },
            Instr::AddImm(x, kk) => {
                let vx = self.v[x as usize];
                let sum = (vx as u16 + kk as u16) % 256;
                self.v[x as usize] = sum as u8;
                self.pc = self.pc + 2;
                proof {
                    assert(self@ =~= p.with_reg(x as int, sum_val(p.v[x as int], kk), pc2(p)));
                }
                Ok(())
            },
            Instr::LdReg(x, y) => {
                self.v[x as usize] = self.v[y as usize];
                self.pc = self.pc + 2;
                proof {
                    assert(self@ =~= p.with_reg(x as int, p.v[y as int], pc2(p)));
                }
                Ok(())
            },
            Instr::Or(x, y) => {
                let val = self.v[x as usize] | self.v[y as usize];
                self.v[x as usize] = val;
                self.pc = self.pc + 2;
                proof {
                    assert(self@ =~= p.with_reg(x as int, p.v[x as int] | p.v[y as int], pc2(p)));
                }
                Ok(())
            },
            Instr::And(x, y) => {
                let val = self.v[x as usize] & self.v[y as usize];
                self.v[x as usize] = val;
                self.pc = self.pc + 2;
                proof {
                    assert(self@ =~= p.with_reg(x as int, p.v[x as int] & p.v[y as int], pc2(p)));
                }
                Ok(())
            },
            Instr::Xor(x, y) => {
                let val = self.v[x as usize] ^ self.v[y as usize];
                self.v[x as usize] = val;
                self.pc = self.pc + 2;
                proof {
                    assert(self@ =~= p.with_reg(x as int, p.v[x as int] ^ p.v[y as int], pc2(p)));
                }
                Ok(())
            },
            Instr::AddCarry(x, y) => {
                let a = self.v[x as usize];
                let b = self.v[y as usize];
                let sum = a as u16 + b as u16;
                if sum > 0xFF {
                    self.v[15] = 1;
                } else {
                    self.v[15] = 0;
                }
                self.v[x as usize] = (sum % 256) as u8;
                self.pc = self.pc + 2;
                proof {
                    assert(self@ =~= alu_step(p, x as int, sum_flag(a, b), sum_val(a, b)));
                }
                Ok(())
            },
            Instr::Sub(x, y) => {
                let a = self.v[x as usize];
                let b = self.v[y as usize];
                let val = if a >= b {
                    a - b
                } else {
                    ((a as u16 + 256 - b as u16) % 256) as u8
                };
                if a >= b {
                    self.v[15] = 1;
                } else {
                    self.v[15] = 0;
                }
                self.v[x as usize] = val;
                self.pc = self.pc + 2;
                proof {
                    assert(val == diff_val(a, b));
                    assert(self@ =~= alu_step(p, x as int, diff_flag(a, b), diff_val(a, b)));
                }
                Ok(())
            },
            Instr::Shr(x) => {
                let a = self.v[x as usize];
                self.v[15] = a % 2;
                let mid = self.v[x as usize];
                self.v[x as usize] = mid / 2;
                self.pc = self.pc + 2;
                proof {
                    assert(self@ =~= shr_step(p, x as int));
                }
                Ok(())
            },
            Instr::Subn(x, y) => {
                let a = self.v[x as usize];
                let b = self.v[y as usize];
                let val = if b >= a {
                    b - a
                } else {
                    ((b as u16 + 256 - a as u16) % 256) as u8
                };
                if b >= a {
                    self.v[15] = 1;
                } else {
                    self.v[15] = 0;
                }
                self.v[x as usize] = val;
                self.pc = self.pc + 2;
                proof {
                    assert(val == diff_val(b, a));
                    assert(self@ =~= alu_step(p, x as int, diff_flag(b, a), diff_val(b, a)));
                }
                Ok(())
            },
            Instr::Shl(x) => {
                let a = self.v[x as usize];
                self.v[15] = a / 128;
                let mid = self.v[x as usize];
                self.v[x as usize] = ((mid as u16 * 2) % 256) as u8;
                self.pc = self.pc + 2;
                proof {
                    assert(self@ =~= shl_step(p, x as int));
                }
                Ok(())
            },
            Instr::SneReg(x, y) => {
                if self.v[x as usize] != self.v[y as usize] {
                    self.pc = self.pc + 4;
                } else {
                    self.pc = self.pc + 2;
                }
                proof {
                    assert(self@ =~= p.with_pc(
                        if p.v[x as int] != p.v[y as int] {
                            pc4(p)
                        } else {
                            pc2(p)
                        },
                    ));
                }
                Ok(())
            },
            Instr::LdI(nnn) => {
                self.i = nnn;
                self.pc = self.pc + 2;
                proof {
                    assert(self@ =~= (CpuV { i: nnn, pc: pc2(p), ..p }));
                }
                Ok(())
            },
            Instr::JpV0(nnn) => {
                self.pc = nnn + self.v[0] as u16;
                proof {
                    assert(self@ =~= p.with_pc((nnn + p.v[0]) as u16));
                }
                Ok(())
            },
            Instr::Rnd(x, kk) => {
                let b = random_byte();
                self.v[x as usize] = b & kk;
                self.pc = self.pc + 2;
                proof {
                    assert(self@ =~= p.with_reg(x as int, b & kk, pc2(p)));
                    assert(exists|bb: u8| self@ == p.with_reg(x as int, bb & kk, pc2(p)));
                }
                Ok(())
            },
            Instr::Drw(x, y, n) => {
                let vx = self.v[x as usize];
                let vy = self.v[y as usize];
                let since = self.i as usize;
                let len = n as usize;
                if since + len > MEM_SIZE {
                    return Err(Error::MemoryOutOfBounds);
                }
                let mut bytes: Vec<u8> = Vec::new();
                let mut j: usize = 0;
                while j < len
                    invariant
                        0 <= j <= len,
                        since + len <= MEM_SIZE,
                        bytes@.len() == j,
                        ram.wf(),
                        ram@ == m0,
                        forall|t: int| 0 <= t < j ==> bytes@[t] == m0[since + t],
                    decreases len - j,
                {
                    bytes.push(ram.get(since + j));
                    j = j + 1;
                }
                proof {
                    assert(bytes@ =~= m0.subrange(since as int, since as int + len as int));
                }
                match dsp.draw(vx, vy, bytes) {
                    Ok(flag) => {
                        self.v[15] = flag;
                        self.pc = self.pc + 2;
                        proof {
                            let sprite = m0.subrange(p.i as int, p.i as int + n as int);
                            assert(self@ =~= p.with_reg(
                                15,
                                console::collision_flag(g0, vx as int, vy as int, sprite),
                                pc2(p),
                            ));
                        }
                        Ok(())
                    },
                    Err(_) => Err(Error::DisplayFailed),
                }
            },
            Instr::SkipKey(x) => {
                let k = self.poll_key(input);
                match k {
                    Some(kk) => {
                        if kk.0 == self.v[x as usize] {
                            self.key = None;
                            self.pc = self.pc + 4;
                            proof {
                                assert(self@ =~= (CpuV { key: None, pc: pc4(p), ..p }));
                            }
                        } else {
                            self.pc = self.pc + 2;
                            proof {
                                assert(self@ =~= (CpuV { key: Some(kk), pc: pc2(p), ..p }));
                            }
                        }
                    },
                    None => {
                        self.pc = self.pc + 2;
                        proof {
                            assert(self@ =~= p.with_pc(pc2(p)));
                        }
                    },
                }
                Ok(())
            },
            Instr::SkipNoKey(x) => {
                let k = self.poll_key(input);
                match k {
                    Some(kk) => {
                        if kk.0 == self.v[x as usize] {
                            self.key = None;
                            self.pc = self.pc + 2;
                            proof {
                                assert(self@ =~= (CpuV { key: None, pc: pc2(p), ..p }));
                            }
                        } else {
                            self.pc = self.pc + 4;
                            proof {
                                assert(self@ =~= (CpuV { key: Some(kk), pc: pc4(p), ..p }));
                            }
                        }
                    },
                    None => {
                        self.pc = self.pc + 4;
                        proof {
                            assert(self@ =~= p.with_pc(pc4(p)));
                        }
                    },
                }
                Ok(())
            },
            Instr::LdDelay(x) => {
                let d = self.dt.get();
                self.v[x as usize] = d;
                self.pc = self.pc + 2;
                proof {
                    assert(self@ =~= p.with_reg(x as int, p.dt, pc2(p)));
                }
                Ok(())
            },
            Instr::WaitKey(x) => {
                let k = self.poll_key(input);
                match k {
                    Some(kk) => {
                        self.v[x as usize] = kk.0;
                        self.pc = self.pc + 2;
                        proof {
                            assert(self@ =~= (CpuV {
                                v: p.v.update(x as int, kk.0),
                                key: Some(kk),
                                pc: pc2(p),
                                ..p
                            }));
                        }
                    },
                    None => {
                        proof {
                            assert(self@ =~= p);
                        }
                    },
                }
                Ok(())
            },
            Instr::SetDelay(x) => {
                let vx = self.v[x as usize];
                self.dt.set(vx);
                self.pc = self.pc + 2;
                proof {
                    assert(self@ =~= (CpuV { dt: p.v[x as int], pc: pc2(p), ..p }));
                }
                Ok(())
            },
            Instr::SetSound(x) => {
                let vx = self.v[x as usize];
                self.st.set(vx);
                self.pc = self.pc + 2;
                proof {
                    assert(self@ =~= (CpuV { st: p.v[x as int], pc: pc2(p), ..p }));
                }
                Ok(())
            },
            Instr::AddI(x) => {
                let vx = self.v[x as usize];
                self.i = ((self.i as u32 + vx as u32) % 0x10000) as u16;
                self.pc = self.pc + 2;
                proof {
                    assert(self@ =~= (CpuV { i: add_i_val(p.i, p.v[x as int]), pc: pc2(p), ..p }));
                }
                Ok(())
            },
            Instr::LdFont(x) => {
                let vx = self.v[x as usize];
                self.i = fontaddr(vx);
                self.pc = self.pc + 2;
                proof {
                    assert(self@ =~= (CpuV {
                        i: spec_fontaddr(p.v[x as int]),
                        pc: pc2(p),
                        ..p
                    }));
                }
                Ok(())
            },
            Instr::StoreBcd(x) => {
                let i = self.i as usize;
                if i + 2 >= MEM_SIZE {
                    return Err(Error::MemoryOutOfBounds);
                }
                let vx = self.v[x as usize];
                ram.set(i, vx / 100);
                ram.set(i + 1, (vx / 10) % 10);
                ram.set(i + 2, vx % 10);
                self.pc = self.pc + 2;
                proof {
                    assert(ram@ =~= bcd_mem(m0, p.i as int, p.v[x as int]));
                    assert(self@ =~= p.with_pc(pc2(p)));
                }
                Ok(())
            },
            Instr::StoreRegs(x) => {
                let i = self.i as usize;
                let lim = x as usize;
                if i + lim >= MEM_SIZE {
                    return Err(Error::MemoryOutOfBounds);
                }
                let mut nreg: usize = 0;
                while nreg < lim + 1
                    invariant
                        0 <= nreg <= lim + 1,
                        lim < 16,
                        i + lim < MEM_SIZE,
                        self@ == p,
                        cpu_wf(p),
                        ram.wf(),
                        forall|a: int|
                            0 <= a < MEM_SIZE ==> ram@[a] == (if i <= a < i + nreg {
                                p.v[a - i]
                            } else {
                                m0[a]
                            }),
                    decreases lim + 1 - nreg,
                {
                    let val = self.v[nreg];
                    ram.set(i + nreg, val);
                    nreg = nreg + 1;
                }
                self.pc = self.pc + 2;
                proof {
                    assert(ram@ =~= store_regs_mem(m0, p.i as int, p.v, x as int));
                    assert(self@ =~= p.with_pc(pc2(p)));
                }
                Ok(())
            },
            Instr::LoadRegs(x) => {
                let i = self.i as usize;
                let lim = x as usize;
                if i + lim >= MEM_SIZE {
                    return Err(Error::MemoryOutOfBounds);
                }
                let mut nreg: usize = 0;
                while nreg < lim + 1
                    invariant
                        0 <= nreg <= lim + 1,
                        lim < 16,
                        i + lim < MEM_SIZE,
                        i == p.i,
                        self@ == (CpuV { v: self@.v, ..p }),
                        self@.v.len() == 16,
                        ram.wf(),
                        ram@ == m0,
                        forall|t: int|
                            0 <= t < 16 ==> self@.v[t] == (if t < nreg {
                                m0[i + t]
                            } else {
                                p.v[t]
                            }),
                    decreases lim + 1 - nreg,
                {
                    let val = ram.get(i + nreg);
                    self.v[nreg] = val;
                    nreg = nreg + 1;
                }
                self.pc = self.pc + 2;
                proof {
                    assert(self@.v =~= load_regs_v(p.v, m0, p.i as int, x as int));
                    assert(self@ =~= (CpuV {
                        v: load_regs_v(p.v, m0, p.i as int, x as int),
                        pc: pc2(p),
                        ..p
                    }));
                }
                Ok(())
            },
        }
    }

    /// Step until the program counter leaves the program region, an error is
    /// reported, or `max_steps` instructions have run; no key input is fed.
    /// Returns the number of steps taken: fewer than `max_steps` only at a
    /// halt.  The final state is reached from the initial one by that many
    /// chained ticks, and an error's tick leaves everything else as the chain
    /// put it.
    pub fn run<D: Display>(&mut self, ram: &mut Ram, dsp: &mut D, max_steps: usize) -> (r: Result<
        usize,
        Error,
    >)
        requires
            old(self).wf(),
            old(ram).wf(),
            old(dsp).wf(),
        ensures
            final(self).wf(),
            final(ram).wf(),
            final(dsp).wf(),
            r matches Ok(n) ==> n <= max_steps && (n < max_steps ==> final(self)@.pc >= 0xFFE)
                && steps_rel(
                old(self)@,
                final(self)@,
                old(ram)@,
                final(ram)@,
                old(dsp).grid(),
                final(dsp).grid(),
                n as nat,
            ),
            r matches Err(e) ==> exists|n: nat, pm: CpuV, mm: Seq<u8>, gm: Seq<Seq<bool>>|
                n < max_steps && #[trigger] steps_rel(
                    old(self)@,
                    pm,
                    old(ram)@,
                    mm,
                    old(dsp).grid(),
                    gm,
                    n,
                ) && tick_rel(pm, final(self)@, mm, final(ram)@, gm, final(dsp).grid(), None, Err(e)),
    {
        let mut steps: usize = 0;
        while steps < max_steps
            invariant
                0 <= steps <= max_steps,
                self.wf(),
                ram.wf(),
                dsp.wf(),
                steps_rel(
                    old(self)@,
                    self@,
                    old(ram)@,
                    ram@,
                    old(dsp).grid(),
                    dsp.grid(),
                    steps as nat,
                ),
            decreases max_steps - steps,
        {
            if self.pc >= 0xFFE {
                return Ok(steps);
            }
            let ghost pm = self@;
            let ghost mm = ram@;
            let ghost gm = dsp.grid();
            match self.tick(ram, dsp, None) {
                Ok(_) => {
                    proof {
                        lemma_steps_snoc(
                            old(self)@,
                            pm,
                            self@,
                            old(ram)@,
                            mm,
                            ram@,
                            old(dsp).grid(),
                            gm,
                            dsp.grid(),
                            steps as nat,
                        );
                    }
                },
                Err(e) => {
                    return Err(e);
                },
            }
            steps = steps + 1;
        }
        Ok(steps)
    }
}

/// Add with carry: the flag is set exactly when the 9-bit sum exceeds 255,
/// and the stored value is the sum reduced modulo 256.
pub proof fn lemma_add_with_carry(a: u8, b: u8)
    ensures
        sum_flag(a, b) == 1 <==> a + b > 255,
        sum_val(a, b) == (a + b) % 256,
{
}

/// Subtract: the flag is set exactly when no borrow occurs, and the stored
/// value is the difference reduced modulo 256.  Reverse subtraction is the
/// same statement with the operands swapped.
pub proof fn lemma_subtract(a: u8, b: u8)
    ensures
        diff_flag(a, b) == 1 <==> a >= b,
        diff_val(a, b) == (a - b) % 256,
        diff_flag(b, a) == 1 <==> b >= a,
        diff_val(b, a) == (b - a) % 256,
{
}

/// Shift left: the flag takes the dropped high bit, the value doubles modulo
/// 256.  Shift right: the flag takes the dropped low bit, the value halves.
pub proof fn lemma_shifts(v: u8)
    ensures
        shl_flag(v) == v >> 7u8,
        shl_val(v) == (v * 2) % 256,
        shr_flag(v) == v & 1u8,
        shr_val(v) == v / 2,
{
    assert(v / 128 == v >> 7u8) by (bit_vector);
    assert(v % 2 == v & 1u8) by (bit_vector);
}

/// A call followed by a return resumes at the instruction after the call
/// site: the program counter ends two bytes past its value at call time, and
/// the stack pointer is restored.
pub proof fn lemma_call_return_round_trip(p: CpuV, nnn: u16)
    requires
        cpu_wf(p),
        p.sp < 16,
        p.pc < 0xFFF,
    ensures
        ret_step(call_step(p, nnn)).pc == p.pc + 2,
        ret_step(call_step(p, nnn)).sp == p.sp,
        ret_step(call_step(p, nnn)).v == p.v,
        ret_step(call_step(p, nnn)).i == p.i,
{
}

} // verus!
