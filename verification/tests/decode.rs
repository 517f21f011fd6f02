//! The decode table, the bit helpers, the key map, memory loading and the
//! console on its own.

use chip8rs::bitarray;
use chip8rs::cpu::decode;
use chip8rs::cpu::fontaddr;
use chip8rs::cpu::Instr;
use chip8rs::Chip8;
use chip8rs::Console;
use chip8rs::DisplayAdaptor;
use chip8rs::Error;
use chip8rs::Key;
use chip8rs::Ram;
use chip8rs::NO_KEY;

#[test]
fn decode_matches_the_opcode_table() {
    assert_eq!(decode(0x00, 0xE0), Some(Instr::Cls));
    assert_eq!(decode(0x00, 0xEE), Some(Instr::Ret));
    assert_eq!(decode(0x02, 0x34), Some(Instr::Sys(0x234)));
    assert_eq!(decode(0x12, 0x34), Some(Instr::Jp(0x234)));
    assert_eq!(decode(0x23, 0x45), Some(Instr::Call(0x345)));
    assert_eq!(decode(0x31, 0xAB), Some(Instr::SeImm(1, 0xAB)));
    assert_eq!(decode(0x41, 0xAB), Some(Instr::SneImm(1, 0xAB)));
    assert_eq!(decode(0x51, 0x20), Some(Instr::SeReg(1, 2)));
    assert_eq!(decode(0x61, 0xAB), Some(Instr::LdImm(1, 0xAB)));
    assert_eq!(decode(0x71, 0xAB), Some(Instr::AddImm(1, 0xAB)));
    assert_eq!(decode(0x81, 0x20), Some(Instr::LdReg(1, 2)));
    assert_eq!(decode(0x81, 0x21), Some(Instr::Or(1, 2)));
    assert_eq!(decode(0x81, 0x22), Some(Instr::And(1, 2)));
    assert_eq!(decode(0x81, 0x23), Some(Instr::Xor(1, 2)));
    assert_eq!(decode(0x81, 0x24), Some(Instr::AddCarry(1, 2)));
    assert_eq!(decode(0x81, 0x25), Some(Instr::Sub(1, 2)));
    assert_eq!(decode(0x81, 0x26), Some(Instr::Shr(1)));
    assert_eq!(decode(0x81, 0x27), Some(Instr::Subn(1, 2)));
    assert_eq!(decode(0x81, 0x2E), Some(Instr::Shl(1)));
    assert_eq!(decode(0x91, 0x20), Some(Instr::SneReg(1, 2)));
    assert_eq!(decode(0xA1, 0x23), Some(Instr::LdI(0x123)));
    assert_eq!(decode(0xB1, 0x23), Some(Instr::JpV0(0x123)));
    assert_eq!(decode(0xC1, 0xAB), Some(Instr::Rnd(1, 0xAB)));
    assert_eq!(decode(0xD1, 0x25), Some(Instr::Drw(1, 2, 5)));
    assert_eq!(decode(0xE1, 0x9E), Some(Instr::SkipKey(1)));
    assert_eq!(decode(0xE1, 0xA1), Some(Instr::SkipNoKey(1)));
    assert_eq!(decode(0xF1, 0x07), Some(Instr::LdDelay(1)));
    assert_eq!(decode(0xF1, 0x0A), Some(Instr::WaitKey(1)));
    assert_eq!(decode(0xF1, 0x15), Some(Instr::SetDelay(1)));
    assert_eq!(decode(0xF1, 0x18), Some(Instr::SetSound(1)));
    assert_eq!(decode(0xF1, 0x1E), Some(Instr::AddI(1)));
    assert_eq!(decode(0xF1, 0x29), Some(Instr::LdFont(1)));
    assert_eq!(decode(0xF1, 0x33), Some(Instr::StoreBcd(1)));
    assert_eq!(decode(0xF1, 0x55), Some(Instr::StoreRegs(1)));
    assert_eq!(decode(0xF1, 0x65), Some(Instr::LoadRegs(1)));
}

#[test]
fn decode_rejects_patterns_outside_the_table() {
    assert_eq!(decode(0x51, 0x21), None);
    assert_eq!(decode(0x81, 0x28), None);
    assert_eq!(decode(0x81, 0x2F), None);
    assert_eq!(decode(0x91, 0x21), None);
    assert_eq!(decode(0xE1, 0x9F), None);
    assert_eq!(decode(0xF1, 0x00), None);
    assert_eq!(decode(0xFF, 0xFF), None);
}

#[test]
fn illegal_instruction_is_reported_with_its_bytes() {
    let console = Console::new();
    let mut m = Chip8::new(DisplayAdaptor::new(console));
    m.ram.load(&vec![0xFF, 0xFF]).unwrap();
    let r = m.tick(None);
    assert!(matches!(r, Err(Error::IllegalInstruction { addr: 0x200, hi: 0xFF, lo: 0xFF })));
    assert_eq!(m.cpu.pc, 0x200);
}

#[test]
fn bitarray_lists_bits_most_significant_first() {
    assert_eq!(bitarray(0xA5), vec![1, 0, 1, 0, 0, 1, 0, 1]);
    assert_eq!(bitarray(0x00), vec![0, 0, 0, 0, 0, 0, 0, 0]);
    assert_eq!(bitarray(0xFF), vec![1, 1, 1, 1, 1, 1, 1, 1]);
}

#[test]
fn key_map_covers_the_sixteen_keys() {
    assert_eq!(Key::from('1'), Key(0x1));
    assert_eq!(Key::from('2'), Key(0x2));
    assert_eq!(Key::from('3'), Key(0x3));
    assert_eq!(Key::from('q'), Key(0x4));
    assert_eq!(Key::from('w'), Key(0x5));
    assert_eq!(Key::from('e'), Key(0x6));
    assert_eq!(Key::from('a'), Key(0x7));
    assert_eq!(Key::from('s'), Key(0x8));
    assert_eq!(Key::from('d'), Key(0x9));
    assert_eq!(Key::from('z'), Key(0xA));
    assert_eq!(Key::from('x'), Key(0x0));
    assert_eq!(Key::from('c'), Key(0xB));
    assert_eq!(Key::from('4'), Key(0xC));
    assert_eq!(Key::from('r'), Key(0xD));
    assert_eq!(Key::from('f'), Key(0xE));
    assert_eq!(Key::from('v'), Key(0xF));
}

#[test]
fn unmapped_symbols_give_the_no_key_sentinel() {
    assert_eq!(Key::from('9'), Key(NO_KEY));
    assert_eq!(Key::from('!'), Key(NO_KEY));
    assert_eq!(Key::from(' '), Key(NO_KEY));
}

#[test]
fn font_glyph_address_of_digit_a() {
    assert_eq!(fontaddr(0x0A), 50);
    // only the low nibble of the value addresses the font
    assert_eq!(fontaddr(0x1A), 50);
    assert_eq!(fontaddr(0x00), 0);
    assert_eq!(fontaddr(0x0F), 75);
}

#[test]
fn fresh_memory_holds_the_font_then_zeroes() {
    let r = Ram::new();
    assert_eq!(r.read(0), Some(0xF0)); // glyph 0, first row
    assert_eq!(r.read(5), Some(0x20)); // glyph 1, first row
    assert_eq!(r.read(50), Some(0xF0)); // glyph A, first row
    assert_eq!(r.read(79), Some(0x80)); // glyph F, last row
    assert_eq!(r.read(80), Some(0));
    assert_eq!(r.read(0x200), Some(0));
}

#[test]
fn program_larger_than_memory_is_rejected_whole() {
    let mut r = Ram::new();
    let too_big = vec![0xAB; 4096 - 0x200 + 1];
    assert_eq!(r.load(&too_big), Err(Error::ProgramTooLarge));
    assert_eq!(r.read(0x200), Some(0)); // nothing was written
    let just_fits = vec![0xAB; 4096 - 0x200];
    assert_eq!(r.load(&just_fits), Ok(()));
    assert_eq!(r.read(0x200), Some(0xAB));
    assert_eq!(r.read(0xFFF), Some(0xAB));
}

#[test]
fn memory_access_is_bounds_checked() {
    let mut r = Ram::new();
    assert_eq!(r.write(4095, 0x42), Ok(()));
    assert_eq!(r.read(4095), Some(0x42));
    assert_eq!(r.write(4096, 0x42), Err(Error::MemoryOutOfBounds));
    assert_eq!(r.read(4096), None);
}

#[test]
fn console_double_draw_restores_and_collides() {
    let mut c = Console::new();
    let flag = c.draw(5, 3, vec![0x80, 0x40]).unwrap();
    assert_eq!(flag, 0);
    assert!(c.pixel(5, 3));
    assert!(c.pixel(6, 4));
    let flag = c.draw(5, 3, vec![0x80, 0x40]).unwrap();
    assert_eq!(flag, 1); // every set bit fell on a cell the first draw set
    for x in 0..16 {
        for y in 0..8 {
            assert!(!c.pixel(x, y));
        }
    }
}

#[test]
fn draw_on_an_originally_set_cell_does_not_collide_twice() {
    let mut c = Console::new();
    // set (0,0) first
    assert_eq!(c.draw(0, 0, vec![0x80]).unwrap(), 0);
    // first draw of the pair unsets it and collides
    assert_eq!(c.draw(0, 0, vec![0x80]).unwrap(), 1);
    // second draw of the pair sets it again: no cell was unset
    assert_eq!(c.draw(0, 0, vec![0x80]).unwrap(), 0);
    assert!(c.pixel(0, 0));
}

#[test]
fn console_clear_unsets_everything() {
    let mut c = Console::new();
    c.draw(10, 10, vec![0xFF, 0xFF]).unwrap();
    assert!(c.pixel(10, 10));
    c.clear();
    for x in 0..64 {
        for y in 0..32 {
            assert!(!c.pixel(x, y));
        }
    }
}
