use chip8::cpu::{address, nibbles, Cpu};
use chip8::input::Keypad;

#[test]
fn to_nibbles_test() {
    let nibbles = nibbles(&[0xF0, 0xAC]);
    assert!(nibbles.0 == 0xF);
    assert!(nibbles.1 == 0x0);
    assert!(nibbles.2 == 0xA);
    assert!(nibbles.3 == 0xC);
}

#[test]
fn address_test() {
    let address = address(&[0x0F, 0xFF]);
    assert_eq!(address, 0x0FFF);
}

#[test]
fn load_then_get_reads_back() {
    let mut cpu = Cpu::new();
    cpu.reset();
    let pc_before = cpu.pc();
    cpu.mov(7, 0x5C);
    assert_eq!(cpu.reg_get(7), 0x5C);
    assert_eq!(cpu.pc(), pc_before);
    cpu.mov(0, 0xFF);
    assert_eq!(cpu.reg_get(0), 0xFF);
    assert_eq!(cpu.pc(), pc_before);
}

#[test]
fn skip_equal_advances_by_two_or_not_at_all() {
    let mut cpu = Cpu::new();
    cpu.reset();
    assert_eq!(cpu.pc(), 0x200);
    cpu.mov(3, 0x42);
    cpu.skip_equal(3, 0x42);
    assert_eq!(cpu.pc(), 0x202);
    cpu.skip_equal(3, 0x43);
    assert_eq!(cpu.pc(), 0x202);
    cpu.skip_not_equal(3, 0x43);
    assert_eq!(cpu.pc(), 0x204);
    cpu.skip_not_equal(3, 0x42);
    assert_eq!(cpu.pc(), 0x204);
}

#[test]
fn skip_on_register_pairs() {
    let mut cpu = Cpu::new();
    cpu.reset();
    cpu.mov(0, 9);
    cpu.mov(1, 9);
    cpu.mov(2, 7);
    cpu.skip_regs_equal(0, 1);
    assert_eq!(cpu.pc(), 0x202);
    cpu.skip_regs_equal(0, 2);
    assert_eq!(cpu.pc(), 0x202);
    cpu.skip_not_regs_equal(0, 2);
    assert_eq!(cpu.pc(), 0x204);
    cpu.skip_not_regs_equal(0, 1);
    assert_eq!(cpu.pc(), 0x204);
}

#[test]
fn add_immediate_wraps_without_flag() {
    let mut cpu = Cpu::new();
    cpu.mov(0, 0xFE);
    cpu.flag_set(9);
    cpu.add(0, 0x03);
    assert_eq!(cpu.reg_get(0), 0x01);
    assert_eq!(cpu.flag_get(), 9);
}

#[test]
fn add_regs_overflow_sets_flag() {
    let mut cpu = Cpu::new();
    cpu.mov(0, 0xFF);
    cpu.mov(1, 0x01);
    cpu.add_regs(0, 1);
    assert_eq!(cpu.reg_get(0), 0x00);
    assert_eq!(cpu.flag_get(), 1);

    cpu.mov(2, 0x01);
    cpu.mov(3, 0x01);
    cpu.add_regs(2, 3);
    assert_eq!(cpu.reg_get(2), 0x02);
    assert_eq!(cpu.flag_get(), 0);
}

#[test]
fn sub_regs_borrow_convention() {
    let mut cpu = Cpu::new();
    cpu.mov(0, 0x05);
    cpu.mov(1, 0x03);
    cpu.sub_regs(0, 1);
    assert_eq!(cpu.reg_get(0), 0x02);
    assert_eq!(cpu.flag_get(), 1);

    cpu.mov(2, 0x03);
    cpu.mov(3, 0x05);
    cpu.sub_regs(2, 3);
    assert_eq!(cpu.reg_get(2), 0xFE);
    assert_eq!(cpu.flag_get(), 0);
}

#[test]
fn reverse_sub_swaps_operands() {
    let mut cpu = Cpu::new();
    cpu.mov(0, 0x03);
    cpu.mov(1, 0x05);
    cpu.sub_regs_2(0, 1);
    assert_eq!(cpu.reg_get(0), 0x02);
    assert_eq!(cpu.flag_get(), 1);

    cpu.mov(2, 0x05);
    cpu.mov(3, 0x03);
    cpu.sub_regs_2(2, 3);
    assert_eq!(cpu.reg_get(2), 0xFE);
    assert_eq!(cpu.flag_get(), 0);
}

#[test]
fn bitwise_ops() {
    let mut cpu = Cpu::new();
    cpu.mov(0, 0b1100);
    cpu.mov(1, 0b1010);
    cpu.or(0, 1);
    assert_eq!(cpu.reg_get(0), 0b1110);
    cpu.mov(0, 0b1100);
    cpu.and(0, 1);
    assert_eq!(cpu.reg_get(0), 0b1000);
    cpu.mov(0, 0b1100);
    cpu.xor(0, 1);
    assert_eq!(cpu.reg_get(0), 0b0110);
    cpu.mov_regs(2, 1);
    assert_eq!(cpu.reg_get(2), 0b1010);
}

#[test]
fn shifts_report_shifted_out_bits() {
    let mut cpu = Cpu::new();
    cpu.mov(0, 0x81);
    cpu.shift_right(1, 0);
    assert_eq!(cpu.reg_get(1), 0x40);
    assert_eq!(cpu.flag_get(), 1);
    cpu.shift_left(2, 0);
    assert_eq!(cpu.reg_get(2), 0x02);
    assert_eq!(cpu.flag_get(), 1);

    cpu.mov(3, 0x02);
    cpu.shift_right(4, 3);
    assert_eq!(cpu.reg_get(4), 0x01);
    assert_eq!(cpu.flag_get(), 0);
    cpu.shift_left(5, 3);
    assert_eq!(cpu.reg_get(5), 0x04);
    assert_eq!(cpu.flag_get(), 0);
}

#[test]
fn jumps_and_index_register() {
    let mut cpu = Cpu::new();
    cpu.jump_to(0x345);
    assert_eq!(cpu.pc(), 0x345);
    cpu.mov(0, 0x10);
    cpu.jump_with_add(0x300);
    assert_eq!(cpu.pc(), 0x310);
    cpu.move_i(0x123);
    assert_eq!(cpu.index_reg(), 0x123);
    cpu.mov(1, 0x05);
    cpu.add_to_i(1);
    assert_eq!(cpu.index_reg(), 0x128);
}

#[test]
fn add_to_i_wraps_modulo_16_bits() {
    let mut cpu = Cpu::new();
    cpu.move_i(0xFFFF);
    cpu.mov(0, 2);
    cpu.add_to_i(0);
    assert_eq!(cpu.index_reg(), 1);
}

#[test]
fn font_address_is_five_times_digit() {
    let mut cpu = Cpu::new();
    cpu.mov(0, 0xA);
    cpu.font(0);
    assert_eq!(cpu.index_reg(), 50);
    cpu.mov(1, 0x0);
    cpu.font(1);
    assert_eq!(cpu.index_reg(), 0);
}

#[test]
fn rnd_ands_the_mask() {
    let mut cpu = Cpu::new();
    cpu.rnd(2, 0x0F, 0xAB);
    assert_eq!(cpu.reg_get(2), 0x0B);
    cpu.rnd(3, 0x00, 0xFF);
    assert_eq!(cpu.reg_get(3), 0x00);
}

#[test]
fn timer_transfers() {
    let mut cpu = Cpu::new();
    cpu.mov(0, 7);
    cpu.set_dt(0);
    assert_eq!(cpu.dt(), 7);
    cpu.get_dt(1);
    assert_eq!(cpu.reg_get(1), 7);
    cpu.mov(2, 9);
    cpu.set_st(2);
    assert_eq!(cpu.st(), 9);
}

#[test]
fn timers_saturate_at_zero() {
    let mut cpu = Cpu::new();
    assert_eq!(cpu.dt(), 0);
    cpu.dt_decrement();
    assert_eq!(cpu.dt(), 0);
    cpu.mov(0, 1);
    cpu.set_dt(0);
    cpu.dt_decrement();
    assert_eq!(cpu.dt(), 0);
    cpu.dt_decrement();
    assert_eq!(cpu.dt(), 0);
    cpu.st_decrement();
    assert_eq!(cpu.st(), 0);
}

#[test]
fn beeper_gate_hysteresis() {
    let mut cpu = Cpu::new();
    cpu.mov(0, 5);
    cpu.set_st(0);
    assert!(cpu.beeper_gate(false));
    assert!(cpu.beeper_gate(true));
    cpu.mov(0, 1);
    cpu.set_st(0);
    assert!(cpu.beeper_gate(true));
    assert!(!cpu.beeper_gate(false));
    cpu.mov(0, 0);
    cpu.set_st(0);
    assert!(!cpu.beeper_gate(true));
    assert!(!cpu.beeper_gate(false));
}

#[test]
fn key_skips_query_the_keypad() {
    let mut keypad = Keypad::new();
    keypad.set_key(3, true);
    let mut cpu = Cpu::new();
    cpu.reset();
    cpu.mov(0, 3);
    cpu.skip_key_pressed(0, &keypad);
    assert_eq!(cpu.pc(), 0x202);
    cpu.skip_key_not_pressed(0, &keypad);
    assert_eq!(cpu.pc(), 0x202);
    cpu.mov(1, 4);
    cpu.skip_key_pressed(1, &keypad);
    assert_eq!(cpu.pc(), 0x202);
    cpu.skip_key_not_pressed(1, &keypad);
    assert_eq!(cpu.pc(), 0x204);
}

#[test]
fn key_skip_with_out_of_range_register_is_a_noop() {
    let keypad = Keypad::new();
    let mut cpu = Cpu::new();
    cpu.reset();
    cpu.mov(0, 20);
    cpu.skip_key_pressed(0, &keypad);
    assert_eq!(cpu.pc(), 0x200);
    cpu.skip_key_not_pressed(0, &keypad);
    assert_eq!(cpu.pc(), 0x200);
}

#[test]
fn keypad_first_pressed_is_lowest() {
    let mut keypad = Keypad::new();
    assert_eq!(keypad.first_pressed(), None);
    keypad.set_key(9, true);
    keypad.set_key(4, true);
    assert_eq!(keypad.first_pressed(), Some(4));
    assert!(keypad.is_key_pressed(9));
    assert!(!keypad.is_key_pressed(5));
    assert!(!keypad.is_key_pressed(255));
    keypad.set_key(4, false);
    assert_eq!(keypad.first_pressed(), Some(9));
}
