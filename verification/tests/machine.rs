//! Control flow, key handling, timers and display behaviour over whole
//! machine runs.

use chip8rs::Chip8;
use chip8rs::Console;
use chip8rs::DisplayAdaptor;
use chip8rs::Error;
use chip8rs::Key;

fn boot(program: Vec<u8>) -> Chip8<DisplayAdaptor> {
    let console = Console::new();
    let adaptor = DisplayAdaptor::new(console);
    let mut chip8 = Chip8::new(adaptor);
    chip8.ram.load(&program).unwrap();
    chip8
}

#[test]
fn fresh_engine_starts_zeroed_with_pc_at_program_start() {
    let m = boot(vec![]);
    assert_eq!(m.cpu.pc(), 0x200);
    assert_eq!(m.cpu.index_reg(), 0);
    assert_eq!(m.cpu.stack_ptr(), 0);
    for x in 0..16 {
        assert_eq!(m.cpu.reg(x), 0);
    }
    assert_eq!(m.cpu.delay(), 0);
    assert_eq!(m.cpu.sound(), 0);
    assert_eq!(m.cpu.latched_key(), None);
}

#[test]
fn end_to_end_add_and_skip() {
    // LD V0,5; LD V1,3; ADD V0,V1; SE V0,8; JP 0x200
    let mut m = boot(vec![0x60, 0x05, 0x61, 0x03, 0x80, 0x14, 0x30, 0x08, 0x12, 0x00]);
    m.tick(None).unwrap();
    m.tick(None).unwrap();
    m.tick(None).unwrap();
    assert_eq!(m.cpu.reg(0), 8);
    assert_eq!(m.cpu.pc, 0x206);
    m.tick(None).unwrap();
    // the skip-if-equal is taken: PC advances by 4, not 2, past the jump
    assert_eq!(m.cpu.pc, 0x20A);
}

#[test]
fn call_then_return_resumes_after_call() {
    // 0x200: CALL 0x204; 0x202: (never reached before return); 0x204: RET
    let mut m = boot(vec![0x22, 0x04, 0x00, 0x00, 0x00, 0xEE]);
    m.tick(None).unwrap();
    assert_eq!(m.cpu.pc, 0x204);
    assert_eq!(m.cpu.stack_ptr(), 1);
    m.tick(None).unwrap();
    assert_eq!(m.cpu.pc, 0x202); // call site + 2
    assert_eq!(m.cpu.stack_ptr(), 0);
}

#[test]
fn return_on_empty_stack_is_reported() {
    let mut m = boot(vec![0x00, 0xEE]);
    assert_eq!(m.tick(None), Err(Error::StackUnderflow));
    assert_eq!(m.cpu.pc, 0x200);
}

#[test]
fn seventeenth_nested_call_overflows() {
    // CALL 0x200 repeatedly: each call pushes one return address
    let mut m = boot(vec![0x22, 0x00]);
    for _ in 0..16 {
        m.tick(None).unwrap();
    }
    assert_eq!(m.cpu.stack_ptr(), 16);
    assert_eq!(m.tick(None), Err(Error::StackOverflow));
}

#[test]
fn jump_and_jump_with_offset() {
    let mut m = boot(vec![0x12, 0x34]);
    m.tick(None).unwrap();
    assert_eq!(m.cpu.pc, 0x234);

    // LD V0,4; JP V0+0x200
    let mut m = boot(vec![0x60, 0x04, 0xB2, 0x00]);
    m.tick(None).unwrap();
    m.tick(None).unwrap();
    assert_eq!(m.cpu.pc, 0x204);
}

#[test]
fn wait_key_reissues_until_key_arrives() {
    // LD V0,K
    let mut m = boot(vec![0xF0, 0x0A]);
    m.tick(None).unwrap();
    assert_eq!(m.cpu.pc, 0x200); // no key: the same instruction runs again
    m.tick(None).unwrap();
    assert_eq!(m.cpu.pc, 0x200);
    m.tick(Some(Key(0x7))).unwrap();
    assert_eq!(m.cpu.pc, 0x202); // key delivered: advance normally
    assert_eq!(m.cpu.reg(0), 0x7);
}

#[test]
fn skip_if_key_consumes_the_latch() {
    // LD V0,7; SKP V0
    let mut m = boot(vec![0x60, 0x07, 0xE0, 0x9E]);
    m.tick(None).unwrap();
    m.tick(Some(Key(0x7))).unwrap();
    assert_eq!(m.cpu.pc, 0x206); // skip taken
    assert_eq!(m.cpu.latched_key(), None); // latch consumed
}

#[test]
fn skip_if_key_mismatch_keeps_the_latch() {
    // LD V0,7; SKP V0 with key 3 pressed
    let mut m = boot(vec![0x60, 0x07, 0xE0, 0x9E]);
    m.tick(None).unwrap();
    m.tick(Some(Key(0x3))).unwrap();
    assert_eq!(m.cpu.pc, 0x204); // no skip
    assert_eq!(m.cpu.latched_key(), Some(Key(0x3)));
}

#[test]
fn skip_if_not_pressed_skips_without_key() {
    // SKNP V0
    let mut m = boot(vec![0xE0, 0xA1]);
    m.tick(None).unwrap();
    assert_eq!(m.cpu.pc, 0x204);
}

#[test]
fn latched_key_persists_across_ticks() {
    // LD V0,4; LD V1,3; SKNP V1 (key 4 arrives here and stays latched);
    // the skip lands on SKP V0, run with no new key
    let mut m = boot(vec![0x60, 0x04, 0x61, 0x03, 0xE1, 0xA1, 0x00, 0x00, 0xE0, 0x9E]);
    m.tick(None).unwrap();
    m.tick(None).unwrap();
    m.tick(Some(Key(0x4))).unwrap();
    assert_eq!(m.cpu.pc, 0x208); // key 4 differs from V1: skip taken
    assert_eq!(m.cpu.latched_key(), Some(Key(0x4)));
    m.tick(None).unwrap();
    assert_eq!(m.cpu.pc, 0x20C); // skip taken from the latch alone
    assert_eq!(m.cpu.latched_key(), None);
}

#[test]
fn timers_set_read_and_decrement() {
    // LD V0,5; LD DT,V0; LD V1,DT; LD V2,2; LD ST,V2
    let mut m = boot(vec![0x60, 0x05, 0xF0, 0x15, 0xF1, 0x07, 0x62, 0x02, 0xF2, 0x18]);
    for _ in 0..5 {
        m.tick(None).unwrap();
    }
    assert_eq!(m.cpu.reg(1), 5);
    assert_eq!(m.cpu.delay(), 5);
    assert_eq!(m.cpu.sound(), 2);
    m.tick_timers();
    assert_eq!(m.cpu.delay(), 4);
    assert_eq!(m.cpu.sound(), 1);
    m.tick_timers();
    m.tick_timers();
    m.tick_timers();
    assert_eq!(m.cpu.delay(), 1);
    assert_eq!(m.cpu.sound(), 0); // saturates at zero, never wraps
}

#[test]
fn draw_font_glyph_then_redraw_restores_blank() {
    // LD V0,0; LD F,V0; DRW V0,V1,1 twice: glyph 0's top row is 0xF0
    let mut m = boot(vec![0x60, 0x00, 0xF0, 0x29, 0xD0, 0x11, 0xD0, 0x11]);
    for _ in 0..3 {
        m.tick(None).unwrap();
    }
    for x in 0..4 {
        assert!(m.dsp.console.pixel(x, 0));
    }
    assert!(!m.dsp.console.pixel(4, 0));
    assert_eq!(m.cpu.reg(0xF), 0); // nothing was unset
    m.tick(None).unwrap();
    for x in 0..8 {
        assert!(!m.dsp.console.pixel(x, 0));
    }
    assert_eq!(m.cpu.reg(0xF), 1); // the second draw unset every set pixel
}

#[test]
fn clear_screen_opcode_blanks_the_grid() {
    // LD V0,0; LD F,V0; DRW V0,V1,5; CLS
    let mut m = boot(vec![0x60, 0x00, 0xF0, 0x29, 0xD0, 0x15, 0x00, 0xE0]);
    for _ in 0..3 {
        m.tick(None).unwrap();
    }
    assert!(m.dsp.console.pixel(0, 0));
    m.tick(None).unwrap();
    for x in 0..8 {
        for y in 0..6 {
            assert!(!m.dsp.console.pixel(x, y));
        }
    }
}

#[test]
fn draw_clips_at_the_right_edge() {
    // LD V0,62; LD V1,0; LD V2,0; LD F,V2; DRW V0,V1,1
    let mut m = boot(vec![0x60, 0x3E, 0x61, 0x00, 0x62, 0x00, 0xF2, 0x29, 0xD0, 0x11]);
    for _ in 0..5 {
        m.tick(None).unwrap();
    }
    assert!(m.dsp.console.pixel(62, 0));
    assert!(m.dsp.console.pixel(63, 0));
    assert_eq!(m.cpu.reg(0xF), 0);
    // nothing wrapped around to the left edge
    assert!(!m.dsp.console.pixel(0, 0));
    assert!(!m.dsp.console.pixel(1, 0));
}

#[test]
fn draw_sprite_out_of_memory_is_reported() {
    // LD I,0xFFF; DRW V0,V1,2: two sprite bytes from 0xFFF run past memory
    let mut m = boot(vec![0xAF, 0xFF, 0xD0, 0x12]);
    m.tick(None).unwrap();
    assert_eq!(m.tick(None), Err(Error::MemoryOutOfBounds));
}

#[test]
fn run_halts_at_the_top_of_memory() {
    // JP 0xFFE parks the program counter at the halt boundary
    let mut m = boot(vec![0x1F, 0xFE]);
    let steps = m.run(10).unwrap();
    assert_eq!(steps, 1);
    assert_eq!(m.cpu.pc, 0xFFE);
}

#[test]
fn program_counter_outside_memory_is_reported() {
    let mut m = boot(vec![]);
    m.cpu.set_pc(0xFFF);
    assert_eq!(m.tick(None), Err(Error::PcOutOfRange));
}

#[test]
fn run_reports_the_first_error() {
    // a return on an empty stack stops the run with its error
    let mut m = boot(vec![0x00, 0xEE]);
    assert_eq!(m.run(10), Err(Error::StackUnderflow));
}
