use chip8::cpu::CpuState;
use chip8::input::Keypad;
use chip8::machine::{Machine, Rom};
use chip8::Chip8Error;

fn machine_with(program: Vec<u8>) -> Machine {
    let mut m = Machine::new(64, 32);
    m.init(Rom::new(program)).unwrap();
    m
}

#[test]
fn init_loads_fonts_and_rom() {
    let m = machine_with(vec![0xAB, 0xCD]);
    assert_eq!(m.memory.read_8(0), Ok(0xF0));
    assert_eq!(m.memory.read_8(4), Ok(0xF0));
    assert_eq!(m.memory.read_8(5), Ok(0x20));
    assert_eq!(m.memory.read_8(79), Ok(0x80));
    assert_eq!(m.memory.read_8(80), Ok(0));
    assert_eq!(m.memory.read_8(0x200), Ok(0xAB));
    assert_eq!(m.memory.read_8(0x201), Ok(0xCD));
    assert_eq!(m.cpu.pc(), 0x200);
    assert!(!m.beeper);
}

#[test]
fn init_rejects_an_oversized_rom() {
    let mut m = Machine::new(64, 32);
    let r = m.init(Rom::new(vec![0u8; 4000]));
    assert_eq!(r, Err(Chip8Error::OutOfBounds));
    assert!(m.init(Rom::new(vec![0u8; 3584])).is_ok());
}

#[test]
fn rom_hands_its_bytes_back() {
    let rom = Rom::new(vec![1, 2, 3]);
    assert_eq!(rom.get_bytes(), vec![1, 2, 3]);
}

#[test]
fn step_executes_a_skip_program() {
    // mov V5, 0x42; skip if V5 == 0x42 (taken, so the mov V1 is skipped).
    let mut m = machine_with(vec![0x65, 0x42, 0x35, 0x42, 0x61, 0x01, 0x61, 0x02]);
    let keypad = Keypad::new();
    assert!(m.step(&keypad, 0).is_ok());
    assert_eq!(m.cpu.pc(), 0x202);
    assert_eq!(m.cpu.reg_get(5), 0x42);
    assert!(m.step(&keypad, 0).is_ok());
    assert_eq!(m.cpu.pc(), 0x206);
    assert!(m.step(&keypad, 0).is_ok());
    assert_eq!(m.cpu.reg_get(1), 0x02);
}

#[test]
fn step_skip_not_taken_advances_by_two() {
    // skip if V5 == 0x42: V5 is 0, so no skip.
    let mut m = machine_with(vec![0x35, 0x42]);
    let keypad = Keypad::new();
    assert!(m.step(&keypad, 0).is_ok());
    assert_eq!(m.cpu.pc(), 0x202);
}

#[test]
fn step_reports_an_illegal_instruction() {
    let mut m = machine_with(vec![0xFF, 0xFF]);
    let keypad = Keypad::new();
    assert_eq!(m.step(&keypad, 0), Err(Chip8Error::IllegalInstruction));
}

#[test]
fn step_fetch_past_memory_end_is_fatal() {
    let mut m = machine_with(vec![0x1F, 0xFF]); // jump to 0xFFF
    let keypad = Keypad::new();
    assert!(m.step(&keypad, 0).is_ok());
    assert_eq!(m.cpu.pc(), 0xFFF);
    assert_eq!(m.step(&keypad, 0), Err(Chip8Error::OutOfBounds));
}

#[test]
fn step_ticks_the_timers_once() {
    // mov V1, 5; set DT from V1; mov V2, 0 (plain work).
    let mut m = machine_with(vec![0x61, 0x05, 0xF1, 0x15, 0x62, 0x00]);
    let keypad = Keypad::new();
    assert!(m.step(&keypad, 0).is_ok());
    assert_eq!(m.cpu.dt(), 0);
    assert!(m.step(&keypad, 0).is_ok());
    // DT was set to 5, then the same step's tick brought it to 4.
    assert_eq!(m.cpu.dt(), 4);
    assert!(m.step(&keypad, 0).is_ok());
    assert_eq!(m.cpu.dt(), 3);
}

#[test]
fn wait_for_key_suspends_and_resumes() {
    // mov V1, 5; set DT from V1; wait for a key into V5.
    let mut m = machine_with(vec![0x61, 0x05, 0xF1, 0x15, 0xF5, 0x0A]);
    let mut keypad = Keypad::new();
    assert!(m.step(&keypad, 0).is_ok());
    assert!(m.step(&keypad, 0).is_ok());
    assert_eq!(m.cpu.dt(), 4);
    assert!(m.step(&keypad, 0).is_ok());
    assert_eq!(m.cpu.state(), CpuState::AwaitingKey(5));
    assert_eq!(m.cpu.dt(), 3);
    let pc = m.cpu.pc();

    // No key pressed: the machine only polls; no timer tick, no fetch.
    assert!(m.step(&keypad, 0).is_ok());
    assert_eq!(m.cpu.state(), CpuState::AwaitingKey(5));
    assert_eq!(m.cpu.dt(), 3);
    assert_eq!(m.cpu.pc(), pc);

    // A key goes down: its value lands in V5 and execution resumes.
    keypad.set_key(7, true);
    assert!(m.step(&keypad, 0).is_ok());
    assert_eq!(m.cpu.state(), CpuState::Running);
    assert_eq!(m.cpu.reg_get(5), 7);
    assert_eq!(m.cpu.dt(), 3);
    assert_eq!(m.cpu.pc(), pc);
}

#[test]
fn step_draws_the_font_glyph() {
    // I = 0 (glyph for 0 after init); draw 5 rows at (V0, V0) = (0, 0).
    let mut m = machine_with(vec![0xA0, 0x00, 0xD0, 0x05]);
    let keypad = Keypad::new();
    assert!(m.step(&keypad, 0).is_ok());
    assert_eq!(m.cpu.index_reg(), 0);
    assert!(m.step(&keypad, 0).is_ok());
    assert_eq!(m.cpu.flag_get(), 0);
    // Top row of the glyph for 0 is 0xF0.
    assert!(m.display.pixel(0, 0));
    assert!(m.display.pixel(3, 0));
    assert!(!m.display.pixel(4, 0));
    // Its middle rows are 0x90.
    assert!(m.display.pixel(0, 1));
    assert!(!m.display.pixel(1, 1));
    assert!(m.display.pixel(3, 1));
}

#[test]
fn init_accepts_an_empty_rom() {
    let m = machine_with(vec![]);
    assert_eq!(m.cpu.pc(), 0x200);
    assert_eq!(m.memory.read_8(0x200), Ok(0));
}

#[test]
fn zero_height_draw_is_a_noop() {
    // I = 0; draw 0 rows at (0, 0).
    let mut m = machine_with(vec![0xA0, 0x00, 0xD0, 0x00]);
    let keypad = Keypad::new();
    assert!(m.step(&keypad, 0).is_ok());
    assert!(m.step(&keypad, 0).is_ok());
    assert_eq!(m.cpu.flag_get(), 0);
    assert!(!m.display.pixel(0, 0));
}

#[test]
fn draw_past_memory_end_is_fatal() {
    // I = 0xFFF; drawing 5 rows would read past the end of memory.
    let mut m = machine_with(vec![0xAF, 0xFF, 0xD0, 0x05]);
    let keypad = Keypad::new();
    assert!(m.step(&keypad, 0).is_ok());
    assert_eq!(m.step(&keypad, 0), Err(Chip8Error::OutOfBounds));
}

#[test]
fn step_random_instruction_uses_the_supplied_byte() {
    // V3 = random & 0x0F.
    let mut m = machine_with(vec![0xC3, 0x0F]);
    let keypad = Keypad::new();
    assert!(m.step(&keypad, 0xAB).is_ok());
    assert_eq!(m.cpu.reg_get(3), 0x0B);
}

#[test]
fn beeper_follows_the_sound_timer() {
    // mov V1, 3; set ST from V1; then idle movs.
    let mut m = machine_with(vec![0x61, 0x03, 0xF1, 0x18, 0x62, 0x00, 0x62, 0x00, 0x62, 0x00]);
    let keypad = Keypad::new();
    assert!(m.step(&keypad, 0).is_ok());
    assert!(!m.beeper);
    // ST set to 3, ticked to 2: above 1, so the beeper turns on.
    assert!(m.step(&keypad, 0).is_ok());
    assert!(m.beeper);
    // At a sound timer of exactly one, the signal is held as it was.
    assert!(m.step(&keypad, 0).is_ok());
    assert!(m.beeper);
    // ST 0: off.
    assert!(m.step(&keypad, 0).is_ok());
    assert!(!m.beeper);
}

#[test]
fn subroutine_call_and_return_through_step() {
    // 0x200: call 0x204; 0x202: mov V1, 1; 0x204: mov V2, 2; 0x206: return.
    let mut m = machine_with(vec![0x22, 0x04, 0x61, 0x01, 0x62, 0x02, 0x00, 0xEE]);
    let keypad = Keypad::new();
    assert!(m.step(&keypad, 0).is_ok());
    assert_eq!(m.cpu.pc(), 0x204);
    assert_eq!(m.cpu.stack_len(), 1);
    assert!(m.step(&keypad, 0).is_ok());
    assert_eq!(m.cpu.reg_get(2), 2);
    assert!(m.step(&keypad, 0).is_ok());
    assert_eq!(m.cpu.pc(), 0x202);
    assert_eq!(m.cpu.stack_len(), 0);
    assert!(m.step(&keypad, 0).is_ok());
    assert_eq!(m.cpu.reg_get(1), 1);
}

#[test]
fn clear_screen_through_step() {
    // I = 0; draw the 0 glyph; clear the screen.
    let mut m = machine_with(vec![0xA0, 0x00, 0xD0, 0x05, 0x00, 0xE0]);
    let keypad = Keypad::new();
    assert!(m.step(&keypad, 0).is_ok());
    assert!(m.step(&keypad, 0).is_ok());
    assert!(m.display.pixel(0, 0));
    assert!(m.step(&keypad, 0).is_ok());
    assert!(!m.display.pixel(0, 0));
    assert!(!m.display.pixel(3, 0));
}
