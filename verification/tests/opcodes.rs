//! Arithmetic, logic and memory opcodes, observed through whole-machine
//! ticks.

use chip8rs::Chip8;
use chip8rs::Console;
use chip8rs::DisplayAdaptor;
use chip8rs::Error;

fn machine(program: Vec<u8>) -> Chip8<DisplayAdaptor> {
    let console = Console::new();
    let adaptor = DisplayAdaptor::new(console);
    let mut chip8 = Chip8::new(adaptor);
    chip8.ram.load(&program).unwrap();
    chip8
}

#[test]
fn add_with_carry_overflow() {
    // LD V0,200; LD V1,100; ADD V0,V1
    let mut m = machine(vec![0x60, 200, 0x61, 100, 0x80, 0x14]);
    for _ in 0..3 {
        m.tick(None).unwrap();
    }
    assert_eq!(m.cpu.reg(0), 44); // (200 + 100) % 256
    assert_eq!(m.cpu.reg(0xF), 1);
}

#[test]
fn add_with_carry_no_overflow() {
    let mut m = machine(vec![0x60, 5, 0x61, 3, 0x80, 0x14]);
    for _ in 0..3 {
        m.tick(None).unwrap();
    }
    assert_eq!(m.cpu.reg(0), 8);
    assert_eq!(m.cpu.reg(0xF), 0);
}

#[test]
fn add_immediate_wraps_without_flag() {
    // LD V0,250; ADD V0,10
    let mut m = machine(vec![0x60, 250, 0x70, 10]);
    m.tick(None).unwrap();
    m.tick(None).unwrap();
    assert_eq!(m.cpu.reg(0), 4);
    assert_eq!(m.cpu.reg(0xF), 0);
}

#[test]
fn subtract_no_borrow() {
    // LD V0,10; LD V1,3; SUB V0,V1
    let mut m = machine(vec![0x60, 10, 0x61, 3, 0x80, 0x15]);
    for _ in 0..3 {
        m.tick(None).unwrap();
    }
    assert_eq!(m.cpu.reg(0), 7);
    assert_eq!(m.cpu.reg(0xF), 1);
}

#[test]
fn subtract_with_borrow() {
    let mut m = machine(vec![0x60, 3, 0x61, 10, 0x80, 0x15]);
    for _ in 0..3 {
        m.tick(None).unwrap();
    }
    assert_eq!(m.cpu.reg(0), 249); // (3 - 10) mod 256
    assert_eq!(m.cpu.reg(0xF), 0);
}

#[test]
fn reverse_subtract_no_borrow() {
    // LD V0,3; LD V1,10; SUBN V0,V1 -> V0 = V1 - V0
    let mut m = machine(vec![0x60, 3, 0x61, 10, 0x80, 0x17]);
    for _ in 0..3 {
        m.tick(None).unwrap();
    }
    assert_eq!(m.cpu.reg(0), 7);
    assert_eq!(m.cpu.reg(0xF), 1);
}

#[test]
fn reverse_subtract_with_borrow() {
    let mut m = machine(vec![0x60, 10, 0x61, 3, 0x80, 0x17]);
    for _ in 0..3 {
        m.tick(None).unwrap();
    }
    assert_eq!(m.cpu.reg(0), 249);
    assert_eq!(m.cpu.reg(0xF), 0);
}

#[test]
fn shift_left_doubles_and_drops_high_bit() {
    // LD V0,0x81; SHL V0
    let mut m = machine(vec![0x60, 0x81, 0x80, 0x0E]);
    m.tick(None).unwrap();
    m.tick(None).unwrap();
    assert_eq!(m.cpu.reg(0), 0x02); // (0x81 * 2) % 256
    assert_eq!(m.cpu.reg(0xF), 1); // 0x81 >> 7
}

#[test]
fn shift_right_halves_and_drops_low_bit() {
    // LD V0,0x81; SHR V0
    let mut m = machine(vec![0x60, 0x81, 0x80, 0x06]);
    m.tick(None).unwrap();
    m.tick(None).unwrap();
    assert_eq!(m.cpu.reg(0), 0x40); // 0x81 / 2
    assert_eq!(m.cpu.reg(0xF), 1); // 0x81 & 1
}

#[test]
fn logical_or_and_xor() {
    // LD V0,0xCC; LD V1,0xAA; OR V0,V1; then rebuild for AND and XOR
    let mut m = machine(vec![0x60, 0xCC, 0x61, 0xAA, 0x80, 0x11]);
    for _ in 0..3 {
        m.tick(None).unwrap();
    }
    assert_eq!(m.cpu.reg(0), 0xCC | 0xAA);

    let mut m = machine(vec![0x60, 0xCC, 0x61, 0xAA, 0x80, 0x12]);
    for _ in 0..3 {
        m.tick(None).unwrap();
    }
    assert_eq!(m.cpu.reg(0), 0xCC & 0xAA);

    let mut m = machine(vec![0x60, 0xCC, 0x61, 0xAA, 0x80, 0x13]);
    for _ in 0..3 {
        m.tick(None).unwrap();
    }
    assert_eq!(m.cpu.reg(0), 0xCC ^ 0xAA);
}

#[test]
fn copy_register() {
    let mut m = machine(vec![0x61, 0x2A, 0x80, 0x10]);
    m.tick(None).unwrap();
    m.tick(None).unwrap();
    assert_eq!(m.cpu.reg(0), 0x2A);
}

#[test]
fn bcd_store_of_157() {
    // LD V0,157; LD I,0x400; BCD V0
    let mut m = machine(vec![0x60, 157, 0xA4, 0x00, 0xF0, 0x33]);
    for _ in 0..3 {
        m.tick(None).unwrap();
    }
    assert_eq!(m.ram.read(0x400), Some(1));
    assert_eq!(m.ram.read(0x401), Some(5));
    assert_eq!(m.ram.read(0x402), Some(7));
}

#[test]
fn bcd_out_of_bounds_is_reported() {
    // LD I,0xFFF; BCD V0: 0xFFF + 2 is outside memory
    let mut m = machine(vec![0xAF, 0xFF, 0xF0, 0x33]);
    m.tick(None).unwrap();
    assert_eq!(m.tick(None), Err(Error::MemoryOutOfBounds));
}

#[test]
fn store_and_load_registers() {
    // LD V0,0x0A; LD V1,0x0B; LD I,0x300; store V0..=V1;
    // LD V0,0; LD V1,0; load V0..=V1 back
    let mut m = machine(vec![
        0x60, 0x0A, 0x61, 0x0B, 0xA3, 0x00, 0xF1, 0x55, 0x60, 0x00, 0x61, 0x00, 0xF1, 0x65,
    ]);
    for _ in 0..4 {
        m.tick(None).unwrap();
    }
    assert_eq!(m.ram.read(0x300), Some(0x0A));
    assert_eq!(m.ram.read(0x301), Some(0x0B));
    for _ in 0..3 {
        m.tick(None).unwrap();
    }
    assert_eq!(m.cpu.reg(0), 0x0A);
    assert_eq!(m.cpu.reg(1), 0x0B);
}

#[test]
fn font_address_opcode() {
    // LD V0,0x0A; LD F,V0 -> I = 10 * 5
    let mut m = machine(vec![0x60, 0x0A, 0xF0, 0x29]);
    m.tick(None).unwrap();
    m.tick(None).unwrap();
    assert_eq!(m.cpu.index_reg(), 50);
}

#[test]
fn add_register_to_index() {
    // LD I,0x010; LD V0,5; ADD I,V0
    let mut m = machine(vec![0xA0, 0x10, 0x60, 0x05, 0xF0, 0x1E]);
    for _ in 0..3 {
        m.tick(None).unwrap();
    }
    assert_eq!(m.cpu.index_reg(), 0x15);
}

#[test]
fn random_byte_is_masked() {
    // RND V0,0x0F: whatever byte came back, the high nibble must be clear
    let mut m = machine(vec![0xC0, 0x0F]);
    m.tick(None).unwrap();
    assert_eq!(m.cpu.reg(0) & 0xF0, 0);
}
