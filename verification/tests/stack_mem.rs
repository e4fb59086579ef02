use chip8::cpu::Cpu;
use chip8::mem::Memory;
use chip8::Chip8Error;

#[test]
fn memory_reads_back_writes() {
    let mut mem = Memory::new();
    assert_eq!(mem.read_8(0x300), Ok(0));
    assert!(mem.write_8(0xAB, 0x300).is_ok());
    assert_eq!(mem.read_8(0x300), Ok(0xAB));
}

#[test]
fn memory_rejects_out_of_range_access() {
    let mut mem = Memory::new();
    assert_eq!(mem.read_8(4096), Err(Chip8Error::OutOfBounds));
    assert_eq!(mem.write_8(1, 4096), Err(Chip8Error::OutOfBounds));
    assert!(mem.write_8(1, 4095).is_ok());
    assert_eq!(mem.read_8(4095), Ok(1));
}

#[test]
fn read_range_checks_the_whole_range() {
    let mut mem = Memory::new();
    assert!(mem.write_8(0x11, 100).is_ok());
    assert!(mem.write_8(0x22, 101).is_ok());
    let bytes = mem.read_range(100, 2).unwrap();
    assert_eq!(bytes, vec![0x11, 0x22]);
    assert!(mem.read_range(4094, 2).is_ok());
    assert_eq!(mem.read_range(4095, 2), Err(Chip8Error::OutOfBounds));
    assert!(mem.read_range(4096, 0).is_ok());
}

#[test]
fn stack_discipline() {
    let mut cpu = Cpu::new();
    cpu.reset();
    for k in 0..16u16 {
        let r = cpu.call(0x300 + k);
        assert!(r.is_ok());
    }
    assert_eq!(cpu.stack_len(), 16);
    assert_eq!(cpu.call(0x400), Err(Chip8Error::StackOverflow));
    assert_eq!(cpu.stack_len(), 16);

    let mut fresh = Cpu::new();
    fresh.reset();
    assert_eq!(
        fresh.return_from_subroutine(),
        Err(Chip8Error::StackUnderflow)
    );
}

#[test]
fn call_and_return_restore_the_pc() {
    let mut cpu = Cpu::new();
    cpu.reset();
    assert_eq!(cpu.pc(), 0x200);
    assert!(cpu.call(0x350).is_ok());
    assert_eq!(cpu.pc(), 0x350);
    assert_eq!(cpu.stack_len(), 1);
    assert!(cpu.return_from_subroutine().is_ok());
    assert_eq!(cpu.pc(), 0x200);
    assert_eq!(cpu.stack_len(), 0);
}

#[test]
fn bcd_writes_decimal_digits() {
    let mut cpu = Cpu::new();
    let mut mem = Memory::new();
    cpu.mov(4, 156);
    cpu.move_i(0x250);
    assert!(cpu.bcd(4, &mut mem).is_ok());
    assert_eq!(mem.read_8(0x250), Ok(1));
    assert_eq!(mem.read_8(0x251), Ok(5));
    assert_eq!(mem.read_8(0x252), Ok(6));
    assert_eq!(cpu.index_reg(), 0x250);

    cpu.mov(5, 7);
    cpu.move_i(0x260);
    assert!(cpu.bcd(5, &mut mem).is_ok());
    assert_eq!(mem.read_8(0x260), Ok(0));
    assert_eq!(mem.read_8(0x261), Ok(0));
    assert_eq!(mem.read_8(0x262), Ok(7));
}

#[test]
fn bcd_out_of_range_fails() {
    let mut cpu = Cpu::new();
    let mut mem = Memory::new();
    cpu.mov(0, 42);
    cpu.move_i(4094);
    assert_eq!(cpu.bcd(0, &mut mem), Err(Chip8Error::OutOfBounds));
    assert_eq!(mem.read_8(4094), Ok(0));
}

#[test]
fn store_load_range_roundtrip() {
    let mut cpu = Cpu::new();
    let mut mem = Memory::new();
    cpu.mov(0, 0xAA);
    cpu.mov(1, 0xBB);
    cpu.mov(2, 0xCC);
    cpu.mov(3, 0xDD);
    cpu.move_i(0x300);
    assert!(cpu.store_range(3, &mut mem).is_ok());
    assert_eq!(cpu.index_reg(), 0x304);
    assert_eq!(mem.read_8(0x300), Ok(0xAA));
    assert_eq!(mem.read_8(0x301), Ok(0xBB));
    assert_eq!(mem.read_8(0x302), Ok(0xCC));
    assert_eq!(mem.read_8(0x303), Ok(0xDD));

    let mut fresh = Cpu::new();
    fresh.move_i(0x300);
    assert!(fresh.load_range(3, &mem).is_ok());
    assert_eq!(fresh.index_reg(), 0x304);
    assert_eq!(fresh.reg_get(0), 0xAA);
    assert_eq!(fresh.reg_get(1), 0xBB);
    assert_eq!(fresh.reg_get(2), 0xCC);
    assert_eq!(fresh.reg_get(3), 0xDD);
    assert_eq!(fresh.reg_get(4), 0);
}

#[test]
fn range_transfers_out_of_range_fail() {
    let mut cpu = Cpu::new();
    let mut mem = Memory::new();
    cpu.move_i(4090);
    assert_eq!(cpu.store_range(6, &mut mem), Err(Chip8Error::OutOfBounds));
    assert_eq!(cpu.index_reg(), 4090);
    assert!(cpu.store_range(5, &mut mem).is_ok());
    assert_eq!(cpu.index_reg(), 4096);

    let mut other = Cpu::new();
    other.move_i(4090);
    assert_eq!(other.load_range(6, &mem), Err(Chip8Error::OutOfBounds));
    assert!(other.load_range(5, &mem).is_ok());
}
