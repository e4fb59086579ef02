//! The processor: sixteen 8-bit registers, a 16-bit index register, the
//! program counter, a bounded call stack, two saturating timers, and the
//! operations the instruction set dispatches to. Each operation is specified
//! by a spec-level transformer on [`CpuView`], so that the fetch-decode-execute
//! cycle can be stated exactly.

use vstd::prelude::*;

use crate::display::{
    grid_cols, grid_rows, spec_cleared, spec_draw, spec_sprite_pixels, PixelBuffer, Sprite,
};
use crate::input::{spec_first_pressed, Keypad};
use crate::mem::{Memory, MEM_SIZE};
use crate::Chip8Error;

verus! {

/// Number of general-purpose registers (V0..VF).
pub const REGS: usize = 16;

/// Capacity of the call stack.
pub const STACK_SIZE: usize = 16;

/// Address execution starts from after a reset.
pub const START_ADDR: u16 = 0x200;

/// Bytes per built-in font glyph; glyph `d` starts at address `d * FONT_GLYPH_SIZE`.
pub const FONT_GLYPH_SIZE: u16 = 5;

/// Index of the flag register VF.
pub const FLAG_REG: usize = 15;

/// Split a 2-byte instruction into its four 4-bit fields, high nibble first.
pub fn nibbles(bytes: &[u8]) -> (r: (u8, u8, u8, u8))
    requires
        bytes@.len() == 2,
    ensures
        r.0 == bytes@[0] / 16,
        r.1 == bytes@[0] % 16,
        r.2 == bytes@[1] / 16,
        r.3 == bytes@[1] % 16,
        r.0 < 16 && r.1 < 16 && r.2 < 16 && r.3 < 16,
{
    let o1 = bytes[0] / 16;
    let o2 = bytes[0] % 16;
    let o3 = bytes[1] / 16;
    let o4 = bytes[1] % 16;
    (o1, o2, o3, o4)
}

/// The 12-bit address field of a 2-byte instruction: its low 12 bits.
pub fn address(bytes: &[u8]) -> (r: u16)
    requires
        bytes@.len() == 2,
    ensures
        r == (bytes@[0] % 16) * 256 + bytes@[1],
        r < 4096,
{
    (bytes[0] % 16) as u16 * 256 + bytes[1] as u16
}

/// Whether the processor is executing instructions or suspended until a key
/// goes down (the register the detected key will be written to is carried).
#[derive(Clone, Copy, Debug, PartialEq, Eq, Structural)]
pub enum CpuState {
    Running,
    AwaitingKey(u8),
}

/// The mathematical state of the processor.
#[verifier::ext_equal]
pub struct CpuView {
    pub regs: Seq<u8>,
    pub i: u16,
    pub pc: u16,
    pub dt: u8,
    pub st: u8,
    pub stack: Seq<u16>,
    pub state: CpuState,
}

/// Well-formedness: a full register file, a stack within capacity, and a
/// valid target register while a key is awaited.
pub open spec fn cpu_wf(c: CpuView) -> bool {
    &&& c.regs.len() == REGS
    &&& c.stack.len() <= STACK_SIZE
    &&& match c.state {
        CpuState::Running => true,
        CpuState::AwaitingKey(target) => target < 16,
    }
}

pub struct Cpu {
    regs: Vec<u8>,
    i: u16,
    pc: u16,
    dt: u8,
    st: u8,
    stack: Vec<u16>,
    state: CpuState,
}

impl View for Cpu {
    type V = CpuView;

    closed spec fn view(&self) -> CpuView {
        CpuView {
            regs: self.regs@,
            i: self.i,
            pc: self.pc,
            dt: self.dt,
            st: self.st,
            stack: self.stack@,
            state: self.state,
        }
    }
}

/// The state every register, timer and the stack come up in: all zero, PC at
/// zero, running.
pub open spec fn spec_cpu_zero() -> CpuView {
    CpuView {
        regs: Seq::new(REGS as nat, |j: int| 0u8),
        i: 0u16,
        pc: 0u16,
        dt: 0u8,
        st: 0u8,
        stack: Seq::<u16>::empty(),
        state: CpuState::Running,
    }
}

/// PC moved past the instruction that was just fetched.
pub open spec fn spec_pc_advance(c: CpuView) -> CpuView {
    CpuView { pc: (c.pc + 2) as u16, ..c }
}

/// One saturating decrement of both timers.
pub open spec fn spec_tick(c: CpuView) -> CpuView {
    CpuView {
        dt: if c.dt > 0 {
            (c.dt - 1) as u8
        } else {
            0u8
        },
        st: if c.st > 0 {
            (c.st - 1) as u8
        } else {
            0u8
        },
        ..c
    }
}

pub open spec fn spec_mov(c: CpuView, reg: u8, val: u8) -> CpuView {
    CpuView { regs: c.regs.update(reg as int, val), ..c }
}

pub open spec fn spec_add(c: CpuView, reg: u8, val: u8) -> CpuView {
    CpuView { regs: c.regs.update(reg as int, ((c.regs[reg as int] + val) % 256) as u8), ..c }
}

pub open spec fn spec_mov_regs(c: CpuView, reg1: u8, reg2: u8) -> CpuView {
    CpuView { regs: c.regs.update(reg1 as int, c.regs[reg2 as int]), ..c }
}

pub open spec fn spec_or(c: CpuView, reg1: u8, reg2: u8) -> CpuView {
    CpuView { regs: c.regs.update(reg1 as int, c.regs[reg1 as int] | c.regs[reg2 as int]), ..c }
}

pub open spec fn spec_and(c: CpuView, reg1: u8, reg2: u8) -> CpuView {
    CpuView { regs: c.regs.update(reg1 as int, c.regs[reg1 as int] & c.regs[reg2 as int]), ..c }
}

pub open spec fn spec_xor(c: CpuView, reg1: u8, reg2: u8) -> CpuView {
    CpuView { regs: c.regs.update(reg1 as int, c.regs[reg1 as int] ^ c.regs[reg2 as int]), ..c }
}

/// Vx += Vy with 8-bit wraparound; VF reports whether the sum overflowed.
/// The flag write comes second, so it wins when Vx is VF itself.
pub open spec fn spec_add_regs(c: CpuView, reg1: u8, reg2: u8) -> CpuView {
    let sum = c.regs[reg1 as int] + c.regs[reg2 as int];
    let flag: u8 = if sum > 255 {
        1u8
    } else {
        0u8
    };
    CpuView { regs: c.regs.update(reg1 as int, (sum % 256) as u8).update(FLAG_REG as int, flag), ..c }
}

/// Vx -= Vy with 8-bit wraparound; VF is 1 exactly when no borrow occurred
/// (Vx >= Vy before the subtraction).
pub open spec fn spec_sub_regs(c: CpuView, reg1: u8, reg2: u8) -> CpuView {
    let a = c.regs[reg1 as int];
    let b = c.regs[reg2 as int];
    let diff: u8 = if a >= b {
        (a - b) as u8
    } else {
        (a - b + 256) as u8
    };
    let flag: u8 = if a >= b {
        1u8
    } else {
        0u8
    };
    CpuView { regs: c.regs.update(reg1 as int, diff).update(FLAG_REG as int, flag), ..c }
}

/// Vx = Vy - Vx with the same borrow convention, operands swapped.
pub open spec fn spec_sub_regs_2(c: CpuView, reg1: u8, reg2: u8) -> CpuView {
    let a = c.regs[reg1 as int];
    let b = c.regs[reg2 as int];
    let diff: u8 = if b >= a {
        (b - a) as u8
    } else {
        (b - a + 256) as u8
    };
    let flag: u8 = if b >= a {
        1u8
    } else {
        0u8
    };
    CpuView { regs: c.regs.update(reg1 as int, diff).update(FLAG_REG as int, flag), ..c }
}

/// Vx = Vy >> 1; VF receives the bit shifted out. The flag is written first,
/// so the shifted value wins when Vx is VF itself.
pub open spec fn spec_shift_right(c: CpuView, reg: u8, reg2: u8) -> CpuView {
    let val = c.regs[reg2 as int];
    CpuView {
        regs: c.regs.update(FLAG_REG as int, (val % 2) as u8).update(reg as int, (val / 2) as u8),
        ..c
    }
}

/// Vx = Vy << 1 truncated to 8 bits; VF receives the high bit of the source
/// as a 0/1 indicator. The flag is written first, as in the right shift.
pub open spec fn spec_shift_left(c: CpuView, reg: u8, reg2: u8) -> CpuView {
    let val = c.regs[reg2 as int];
    CpuView {
        regs: c.regs.update(FLAG_REG as int, (val / 128) as u8).update(
            reg as int,
            ((val * 2) % 256) as u8,
        ),
        ..c
    }
}

pub open spec fn spec_skip_equal(c: CpuView, reg: u8, val: u8) -> CpuView {
    if c.regs[reg as int] == val {
        spec_pc_advance(c)
    } else {
        c
    }
}

pub open spec fn spec_skip_not_equal(c: CpuView, reg: u8, val: u8) -> CpuView {
    if c.regs[reg as int] != val {
        spec_pc_advance(c)
    } else {
        c
    }
}

pub open spec fn spec_skip_regs_equal(c: CpuView, reg1: u8, reg2: u8) -> CpuView {
    if c.regs[reg1 as int] == c.regs[reg2 as int] {
        spec_pc_advance(c)
    } else {
        c
    }
}

pub open spec fn spec_skip_not_regs_equal(c: CpuView, reg1: u8, reg2: u8) -> CpuView {
    if c.regs[reg1 as int] != c.regs[reg2 as int] {
        spec_pc_advance(c)
    } else {
        c
    }
}

pub open spec fn spec_jump_to(c: CpuView, addr: u16) -> CpuView {
    CpuView { pc: addr, ..c }
}

pub open spec fn spec_jump_with_add(c: CpuView, addr: u16) -> CpuView {
    CpuView { pc: (addr + c.regs[0]) as u16, ..c }
}

pub open spec fn spec_call(c: CpuView, addr: u16) -> Result<CpuView, Chip8Error> {
    if c.stack.len() < STACK_SIZE {
        Ok(CpuView { stack: c.stack.push(c.pc), pc: addr, ..c })
    } else {
        Err(Chip8Error::StackOverflow)
    }
}

pub open spec fn spec_return(c: CpuView) -> Result<CpuView, Chip8Error> {
    if c.stack.len() > 0 {
        Ok(CpuView { stack: c.stack.drop_last(), pc: c.stack.last(), ..c })
    } else {
        Err(Chip8Error::StackUnderflow)
    }
}

pub open spec fn spec_move_i(c: CpuView, addr: u16) -> CpuView {
    CpuView { i: addr, ..c }
}

/// Vx = random byte AND mask; no flags.
pub open spec fn spec_rnd(c: CpuView, reg: u8, val: u8, random: u8) -> CpuView {
    CpuView { regs: c.regs.update(reg as int, random & val), ..c }
}

pub open spec fn spec_get_dt(c: CpuView, reg: u8) -> CpuView {
    CpuView { regs: c.regs.update(reg as int, c.dt), ..c }
}

pub open spec fn spec_set_dt(c: CpuView, reg: u8) -> CpuView {
    CpuView { dt: c.regs[reg as int], ..c }
}

pub open spec fn spec_set_st(c: CpuView, reg: u8) -> CpuView {
    CpuView { st: c.regs[reg as int], ..c }
}

/// I += Vx modulo 2^16; no flag is defined for this addition.
pub open spec fn spec_add_to_i(c: CpuView, reg: u8) -> CpuView {
    CpuView { i: ((c.i + c.regs[reg as int]) % 0x10000) as u16, ..c }
}

/// I = address of the font glyph for the hex digit in Vx.
pub open spec fn spec_font(c: CpuView, reg: u8) -> CpuView {
    CpuView { i: (c.regs[reg as int] * FONT_GLYPH_SIZE) as u16, ..c }
}

pub open spec fn spec_wait_for_key(c: CpuView, reg: u8) -> CpuView {
    CpuView { state: CpuState::AwaitingKey(reg), ..c }
}

/// Skip the next instruction when the key named by Vx is down; a register
/// value outside 0..15 names no key and the instruction is a no-op.
pub open spec fn spec_skip_key_pressed(c: CpuView, reg: u8, keys: Seq<bool>) -> CpuView {
    let k = c.regs[reg as int];
    if k < 16 && keys[k as int] {
        spec_pc_advance(c)
    } else {
        c
    }
}

/// Skip the next instruction when the key named by Vx is up; a register
/// value outside 0..15 names no key and the instruction is a no-op.
pub open spec fn spec_skip_key_not_pressed(c: CpuView, reg: u8, keys: Seq<bool>) -> CpuView {
    let k = c.regs[reg as int];
    if k < 16 && !keys[k as int] {
        spec_pc_advance(c)
    } else {
        c
    }
}

/// Draw the `height`-byte sprite at the index register's address at position
/// (Vx, Vy); VF reports the collision. Fails iff the sprite bytes reach past
/// the end of memory, changing nothing in that case.
pub open spec fn spec_draw_op(
    c: CpuView,
    mem: Seq<u8>,
    fb: Seq<Seq<bool>>,
    reg1: u8,
    reg2: u8,
    height: u8,
) -> Result<(CpuView, Seq<Seq<bool>>), Chip8Error> {
    if c.i + height > MEM_SIZE {
        Err(Chip8Error::OutOfBounds)
    } else {
        let pixels = spec_sprite_pixels(mem.subrange(c.i as int, c.i + height));
        let drawn = spec_draw(
            fb,
            grid_cols(fb),
            grid_rows(fb),
            c.regs[reg1 as int] as int,
            c.regs[reg2 as int] as int,
            pixels,
        );
        let flag: u8 = if drawn.1 {
            1u8
        } else {
            0u8
        };
        Ok((CpuView { regs: c.regs.update(FLAG_REG as int, flag), ..c }, drawn.0))
    }
}

/// The decimal digits of Vx, most significant first, written at I, I+1, I+2.
/// Fails iff those three addresses are not all in range, changing nothing in
/// that case.
pub open spec fn spec_bcd(c: CpuView, mem: Seq<u8>, reg: u8) -> Result<Seq<u8>, Chip8Error> {
    if c.i + 3 > MEM_SIZE {
        Err(Chip8Error::OutOfBounds)
    } else {
        let v = c.regs[reg as int];
        Ok(
            mem.update(c.i as int, (v / 100) as u8).update(c.i + 1, ((v / 10) % 10) as u8).update(
                c.i + 2,
                (v % 10) as u8,
            ),
        )
    }
}

/// Memory with V0..=Vx written at consecutive addresses from `base`.
pub open spec fn spec_store_bytes(mem: Seq<u8>, base: int, regs: Seq<u8>, reg: int) -> Seq<u8> {
    Seq::new(
        mem.len(),
        |j: int|
            if base <= j <= base + reg {
                regs[j - base]
            } else {
                mem[j]
            },
    )
}

/// Store V0..=Vx at consecutive addresses starting at I, then advance I by
/// x+1. Fails iff the range reaches past the end of memory, changing nothing
/// in that case.
pub open spec fn spec_store_range(c: CpuView, mem: Seq<u8>, reg: u8) -> Result<
    (CpuView, Seq<u8>),
    Chip8Error,
> {
    if c.i + reg + 1 > MEM_SIZE {
        Err(Chip8Error::OutOfBounds)
    } else {
        Ok(
            (
                CpuView { i: (c.i + reg + 1) as u16, ..c },
                spec_store_bytes(mem, c.i as int, c.regs, reg as int),
            ),
        )
    }
}

/// Load V0..=Vx from consecutive addresses starting at I, then advance I by
/// x+1. Fails iff the range reaches past the end of memory, changing nothing
/// in that case.
pub open spec fn spec_load_range(c: CpuView, mem: Seq<u8>, reg: u8) -> Result<
    CpuView,
    Chip8Error,
> {
    if c.i + reg + 1 > MEM_SIZE {
        Err(Chip8Error::OutOfBounds)
    } else {
        Ok(
            CpuView {
                i: (c.i + reg + 1) as u16,
                regs: Seq::new(
                    REGS as nat,
                    |j: int|
                        if 0 <= j <= reg {
                            mem[c.i + j]
                        } else {
                            c.regs[j]
                        },
                ),
                ..c
            },
        )
    }
}

/// One decoded operation applied to the machine: the processor (already past
/// the fetched instruction), memory, framebuffer, and the error if the
/// operation failed. The four nibbles select the operation exactly as the
/// dispatch table does; an unmatched pattern is an illegal instruction.
pub open spec fn spec_dispatch(
    c1: CpuView,
    mem: Seq<u8>,
    fb: Seq<Seq<bool>>,
    keys: Seq<bool>,
    random: u8,
    o1: u8,
    o2: u8,
    o3: u8,
    o4: u8,
    addr: u16,
    val: u8,
) -> (CpuView, Seq<u8>, Seq<Seq<bool>>, Option<Chip8Error>) {
    match (o1, o2, o3, o4) {
        (0x0, 0x0, 0xE, 0x0) => (c1, mem, spec_cleared(fb), None),
        (0x0, 0x0, 0xE, 0xE) => match spec_return(c1) {
            Ok(c2) => (c2, mem, fb, None),
            Err(e) => (c1, mem, fb, Some(e)),
        },
        (0x1, _, _, _) => (spec_jump_to(c1, addr), mem, fb, None),
        (0x2, _, _, _) => match spec_call(c1, addr) {
            Ok(c2) => (c2, mem, fb, None),
            Err(e) => (c1, mem, fb, Some(e)),
        },
        (0x3, reg, _, _) => (spec_skip_equal(c1, reg, val), mem, fb, None),
        (0x4, reg, _, _) => (spec_skip_not_equal(c1, reg, val), mem, fb, None),
        (0x5, r1, r2, 0x0) => (spec_skip_regs_equal(c1, r1, r2), mem, fb, None),
        (0x6, reg, _, _) => (spec_mov(c1, reg, val), mem, fb, None),
        (0x7, reg, _, _) => (spec_add(c1, reg, val), mem, fb, None),
        (0x8, r1, r2, 0x0) => (spec_mov_regs(c1, r1, r2), mem, fb, None),
        (0x8, r1, r2, 0x1) => (spec_or(c1, r1, r2), mem, fb, None),
        (0x8, r1, r2, 0x2) => (spec_and(c1, r1, r2), mem, fb, None),
        (0x8, r1, r2, 0x3) => (spec_xor(c1, r1, r2), mem, fb, None),
        (0x8, r1, r2, 0x4) => (spec_add_regs(c1, r1, r2), mem, fb, None),
        (0x8, r1, r2, 0x5) => (spec_sub_regs(c1, r1, r2), mem, fb, None),
        (0x8, r1, r2, 0x6) => (spec_shift_right(c1, r1, r2), mem, fb, None),
        (0x8, r1, r2, 0x7) => (spec_sub_regs_2(c1, r1, r2), mem, fb, None),
        (0x8, r1, r2, 0xE) => (spec_shift_left(c1, r1, r2), mem, fb, None),
        (0x9, r1, r2, 0x0) => (spec_skip_not_regs_equal(c1, r1, r2), mem, fb, None),
        (0xA, _, _, _) => (spec_move_i(c1, addr), mem, fb, None),
        (0xB, _, _, _) => (spec_jump_with_add(c1, addr), mem, fb, None),
        (0xC, reg, _, _) => (spec_rnd(c1, reg, val, random), mem, fb, None),
        (0xD, r1, r2, n) => match spec_draw_op(c1, mem, fb, r1, r2, n) {
            Ok(res) => (res.0, mem, res.1, None),
            Err(e) => (c1, mem, fb, Some(e)),
        },
        (0xE, reg, 0x9, 0xE) => (spec_skip_key_pressed(c1, reg, keys), mem, fb, None),
        (0xE, reg, 0xA, 0x1) => (spec_skip_key_not_pressed(c1, reg, keys), mem, fb, None),
        (0xF, reg, 0x0, 0x7) => (spec_get_dt(c1, reg), mem, fb, None),
        (0xF, reg, 0x0, 0xA) => (spec_wait_for_key(c1, reg), mem, fb, None),
        (0xF, reg, 0x1, 0x5) => (spec_set_dt(c1, reg), mem, fb, None),
        (0xF, reg, 0x1, 0x8) => (spec_set_st(c1, reg), mem, fb, None),
        (0xF, reg, 0x1, 0xE) => (spec_add_to_i(c1, reg), mem, fb, None),
        (0xF, reg, 0x2, 0x9) => (spec_font(c1, reg), mem, fb, None),
        (0xF, reg, 0x3, 0x3) => match spec_bcd(c1, mem, reg) {
            Ok(m2) => (c1, m2, fb, None),
            Err(e) => (c1, mem, fb, Some(e)),
        },
        (0xF, reg, 0x5, 0x5) => match spec_store_range(c1, mem, reg) {
            Ok(res) => (res.0, res.1, fb, None),
            Err(e) => (c1, mem, fb, Some(e)),
        },
        (0xF, reg, 0x6, 0x5) => match spec_load_range(c1, mem, reg) {
            Ok(c2) => (c2, mem, fb, None),
            Err(e) => (c1, mem, fb, Some(e)),
        },
        _ => (c1, mem, fb, Some(Chip8Error::IllegalInstruction)),
    }
}

/// One full step of the machine. Suspended, it only polls the keys: the
/// lowest pressed key resumes execution and lands in the awaited register,
/// and no timer ticks. Running, it fetches two bytes at PC (out-of-range PC
/// is fatal), advances PC by 2, dispatches on the nibbles, and on success
/// decrements both timers once, saturating at zero. On a fatal error the
/// machine is left exactly as the failed operation left it and no timer
/// ticks.
pub open spec fn spec_step(
    c: CpuView,
    mem: Seq<u8>,
    fb: Seq<Seq<bool>>,
    keys: Seq<bool>,
    random: u8,
) -> (CpuView, Seq<u8>, Seq<Seq<bool>>, Option<Chip8Error>) {
    match c.state {
        CpuState::AwaitingKey(target) => match spec_first_pressed(keys, 0) {
            Some(k) => (
                CpuView { regs: c.regs.update(target as int, k), state: CpuState::Running, ..c },
                mem,
                fb,
                None,
            ),
            None => (c, mem, fb, None),
        },
        CpuState::Running => {
            if c.pc + 2 > MEM_SIZE {
                (c, mem, fb, Some(Chip8Error::OutOfBounds))
            } else {
                let hi = mem[c.pc as int];
                let lo = mem[c.pc + 1];
                let addr = ((hi % 16) * 256 + lo) as u16;
                let c1 = spec_pc_advance(c);
                let d = spec_dispatch(
                    c1,
                    mem,
                    fb,
                    keys,
                    random,
                    hi / 16,
                    hi % 16,
                    lo / 16,
                    lo % 16,
                    addr,
                    lo,
                );
                if d.3 is Some {
                    d
                } else {
                    (spec_tick(d.0), d.1, d.2, None)
                }
            }
        },
    }
}

/// The beeper gate: play above 1, stop below 1, hold the previous signal at
/// exactly 1.
pub open spec fn spec_beeper(st: u8, playing: bool) -> bool {
    if st > 1 {
        true
    } else if st < 1 {
        false
    } else {
        playing
    }
}

/// Loading a value into a register makes that register read back exactly
/// that value, and leaves the program counter untouched, for every register
/// and every value.
pub proof fn lemma_load_get(c: CpuView, reg: u8, val: u8)
    requires
        cpu_wf(c),
        reg < 16,
    ensures
        spec_mov(c, reg, val).regs[reg as int] == val,
        spec_mov(c, reg, val).pc == c.pc,
{
}

/// A skip-if-equal instruction at a known PC advances the PC by 4 in total
/// when the named register holds the immediate, and by 2 otherwise; it
/// touches neither memory nor the framebuffer and never fails.
pub proof fn lemma_skip_equal_step(
    c: CpuView,
    mem: Seq<u8>,
    fb: Seq<Seq<bool>>,
    keys: Seq<bool>,
    random: u8,
    reg: u8,
    val: u8,
)
    requires
        cpu_wf(c),
        c.state == CpuState::Running,
        mem.len() == MEM_SIZE,
        c.pc + 2 <= MEM_SIZE,
        reg < 16,
        mem[c.pc as int] == 0x30 + reg,
        mem[c.pc + 1] == val,
    ensures
        ({
            let s = spec_step(c, mem, fb, keys, random);
            &&& s.3 is None
            &&& s.0.pc == (if c.regs[reg as int] == val {
                c.pc + 4
            } else {
                c.pc + 2
            })
            &&& s.1 == mem
            &&& s.2 == fb
        }),
{
    let hi = mem[c.pc as int];
    assert(hi / 16 == 3 && hi % 16 == reg) by (nonlinear_arith)
        requires
            hi == 0x30 + reg && reg < 16,
    ;
}

/// Storing V0..=Vx and then loading the same range, with the index register
/// at the same address, restores those registers exactly; both operations
/// advance I by x+1.
pub proof fn lemma_store_load_roundtrip(c1: CpuView, c2: CpuView, mem: Seq<u8>, reg: u8)
    requires
        cpu_wf(c1),
        cpu_wf(c2),
        mem.len() == MEM_SIZE,
        c2.i == c1.i,
        c1.i + reg + 1 <= MEM_SIZE,
        reg < 16,
    ensures
        ({
            let stored = spec_store_range(c1, mem, reg);
            &&& stored is Ok
            &&& {
                let loaded = spec_load_range(c2, stored->Ok_0.1, reg);
                &&& loaded is Ok
                &&& (forall|j: int| 0 <= j <= reg ==> loaded->Ok_0.regs[j] == c1.regs[j])
                &&& stored->Ok_0.0.i == c1.i + reg + 1
                &&& loaded->Ok_0.i == c1.i + reg + 1
            }
        }),
{
}

/// A timer at zero stays at zero when the per-step decrement is applied:
/// timers saturate and never wrap.
pub proof fn lemma_timer_saturation(c: CpuView)
    requires
        c.dt == 0,
    ensures
        spec_tick(c).dt == 0,
{
}

impl Cpu {
    pub open spec fn wf(&self) -> bool {
        cpu_wf(self@)
    }

    pub fn new() -> (c: Cpu)
        ensures
            c.wf(),
            c@ == spec_cpu_zero(),
    {
        let mut regs: Vec<u8> = Vec::new();
        let mut k: usize = 0;
        while k < REGS
            invariant
                k <= REGS,
                regs@.len() == k,
                forall|j: int| 0 <= j < k ==> regs@[j] == 0u8,
            decreases REGS - k,
        {
            regs.push(0u8);
            k = k + 1;
        }
        let c = Cpu {
            regs,
            i: 0,
            pc: 0,
            dt: 0,
            st: 0,
            stack: Vec::new(),
            state: CpuState::Running,
        };
        proof {
            assert(c@ =~= spec_cpu_zero());
        }
        c
    }

    /// Back to the power-on state, with the PC at the program origin.
    pub fn reset(&mut self)
        ensures
            final(self).wf(),
            final(self)@ == (CpuView { pc: START_ADDR, ..spec_cpu_zero() }),
    {
        let fresh = Cpu::new();
        *self = fresh;
        self.pc = START_ADDR;
        proof {
            assert(self@ =~= CpuView { pc: START_ADDR, ..spec_cpu_zero() });
        }
    }

    pub fn pc_increment(&mut self)
        requires
            old(self)@.pc + 2 <= u16::MAX,
        ensures
            final(self)@ == spec_pc_advance(old(self)@),
    {
        self.pc = self.pc + 2;
    }

    /// DT goes down by one but never below zero.
    pub fn dt_decrement(&mut self)
        ensures
            final(self)@ == (CpuView { dt: spec_tick(old(self)@).dt, ..old(self)@ }),
    {
        if self.dt > 0 {
            self.dt = self.dt - 1;
        }
        proof {
            assert(self@ =~= CpuView { dt: spec_tick(old(self)@).dt, ..old(self)@ });
        }
    }

    /// ST goes down by one but never below zero.
    pub fn st_decrement(&mut self)
        ensures
            final(self)@ == (CpuView { st: spec_tick(old(self)@).st, ..old(self)@ }),
    {
        if self.st > 0 {
            self.st = self.st - 1;
        }
        proof {
            assert(self@ =~= CpuView { st: spec_tick(old(self)@).st, ..old(self)@ });
        }
    }

    /// Push a return address; fails iff the stack is already at capacity.
    pub fn stack_push(&mut self, val: u16) -> (r: Result<(), Chip8Error>)
        requires
            old(self).wf(),
        ensures
            final(self).wf(),
            match r {
                Ok(()) => old(self)@.stack.len() < STACK_SIZE && final(self)@ == (CpuView {
                    stack: old(self)@.stack.push(val),
                    ..old(self)@
                }),
                Err(e) => old(self)@.stack.len() == STACK_SIZE && e == Chip8Error::StackOverflow
                    && final(self)@ == old(self)@,
            },
    {
        if self.stack.len() < STACK_SIZE {
            self.stack.push(val);
            Ok(())
        } else {
            Err(Chip8Error::StackOverflow)
        }
    }

    /// Pop the most recent return address; fails iff the stack is empty.
    pub fn stack_pop(&mut self) -> (r: Result<u16, Chip8Error>)
        requires
            old(self).wf(),
        ensures
            final(self).wf(),
            match r {
                Ok(val) => old(self)@.stack.len() > 0 && val == old(self)@.stack.last()
                    && final(self)@ == (CpuView { stack: old(self)@.stack.drop_last(), ..old(self)@ }),
                Err(e) => old(self)@.stack.len() == 0 && e == Chip8Error::StackUnderflow
                    && final(self)@ == old(self)@,
            },
    {
        if self.stack.len() > 0 {
            match self.stack.pop() {
                Some(val) => Ok(val),
                None => Err(Chip8Error::StackUnderflow),
            }
        } else {
            Err(Chip8Error::StackUnderflow)
        }
    }

    pub fn reg_set(&mut self, reg: u8, val: u8)
        requires
            old(self).wf(),
            reg < 16,
        ensures
            final(self).wf(),
            final(self)@ == spec_mov(old(self)@, reg, val),
    {
        self.regs[reg as usize] = val;
    }

    pub fn reg_get(&self, reg: u8) -> (r: u8)
        requires
            self.wf(),
            reg < 16,
        ensures
            r == self@.regs[reg as int],
    {
        self.regs[reg as usize]
    }

    pub fn flag_set(&mut self, val: u8)
        requires
            old(self).wf(),
        ensures
            final(self).wf(),
            final(self)@ == (CpuView { regs: old(self)@.regs.update(FLAG_REG as int, val), ..old(
                self,
            )@ }),
    {
        self.regs[FLAG_REG] = val;
    }

    pub fn flag_get(&self) -> (r: u8)
        requires
            self.wf(),
        ensures
            r == self@.regs[FLAG_REG as int],
    {
        self.regs[FLAG_REG]
    }

    /// Pop the stack into the PC; fails iff the stack is empty.
    pub fn return_from_subroutine(&mut self) -> (r: Result<(), Chip8Error>)
        requires
            old(self).wf(),
        ensures
            final(self).wf(),
            match r {
                Ok(()) => spec_return(old(self)@) == Ok::<CpuView, Chip8Error>(final(self)@),
                Err(e) => spec_return(old(self)@) == Err::<CpuView, Chip8Error>(e) && final(self)@
                    == old(self)@,
            },
    {
        match self.stack_pop() {
            Ok(val) => {
                self.pc = val;
                proof {
                    assert(self@ =~= spec_return(old(self)@)->Ok_0);
                }
                Ok(())
            },
            Err(e) => Err(e),
        }
    }

    pub fn jump_to(&mut self, addr: u16)
        ensures
            final(self)@ == spec_jump_to(old(self)@, addr),
    {
        self.pc = addr;
        proof {
            assert(self@ =~= spec_jump_to(old(self)@, addr));
        }
    }

    /// Push the (already advanced) PC and jump; fails iff the stack is full.
    pub fn call(&mut self, addr: u16) -> (r: Result<(), Chip8Error>)
        requires
            old(self).wf(),
        ensures
            final(self).wf(),
            match r {
                Ok(()) => spec_call(old(self)@, addr) == Ok::<CpuView, Chip8Error>(final(self)@),
                Err(e) => spec_call(old(self)@, addr) == Err::<CpuView, Chip8Error>(e)
                    && final(self)@ == old(self)@,
            },
    {
        match self.stack_push(self.pc) {
            Ok(()) => {
                self.pc = addr;
                proof {
                    assert(self@ =~= spec_call(old(self)@, addr)->Ok_0);
                }
                Ok(())
            },
            Err(e) => Err(e),
        }
    }

    pub fn skip_equal(&mut self, reg: u8, val: u8)
        requires
            old(self).wf(),
            reg < 16,
            old(self)@.pc + 2 <= u16::MAX,
        ensures
            final(self).wf(),
            final(self)@ == spec_skip_equal(old(self)@, reg, val),
    {
        if self.reg_get(reg) == val {
            self.pc_increment();
        }
    }

    pub fn skip_not_equal(&mut self, reg: u8, val: u8)
        requires
            old(self).wf(),
            reg < 16,
            old(self)@.pc + 2 <= u16::MAX,
        ensures
            final(self).wf(),
            final(self)@ == spec_skip_not_equal(old(self)@, reg, val),
    {
        if self.reg_get(reg) != val {
            self.pc_increment();
        }
    }

    pub fn skip_regs_equal(&mut self, reg1: u8, reg2: u8)
        requires
            old(self).wf(),
            reg1 < 16,
            reg2 < 16,
            old(self)@.pc + 2 <= u16::MAX,
        ensures
            final(self).wf(),
            final(self)@ == spec_skip_regs_equal(old(self)@, reg1, reg2),
    {
        if self.reg_get(reg1) == self.reg_get(reg2) {
            self.pc_increment();
        }
    }

    pub fn skip_not_regs_equal(&mut self, reg1: u8, reg2: u8)
        requires
            old(self).wf(),
            reg1 < 16,
            reg2 < 16,
            old(self)@.pc + 2 <= u16::MAX,
        ensures
            final(self).wf(),
            final(self)@ == spec_skip_not_regs_equal(old(self)@, reg1, reg2),
    {
        if self.reg_get(reg1) != self.reg_get(reg2) {
            self.pc_increment();
        }
    }

    /// Load an immediate into a register; nothing else changes.
    pub fn mov(&mut self, reg: u8, val: u8)
        requires
            old(self).wf(),
            reg < 16,
        ensures
            final(self).wf(),
            final(self)@ == spec_mov(old(self)@, reg, val),
    {
        self.reg_set(reg, val);
    }

    /// Add an immediate with 8-bit wraparound; no flag is touched.
    pub fn add(&mut self, reg: u8, val: u8)
        requires
            old(self).wf(),
            reg < 16,
        ensures
            final(self).wf(),
            final(self)@ == spec_add(old(self)@, reg, val),
    {
        let regval = self.reg_get(reg);
        let result = ((regval as u16 + val as u16) % 256) as u8;
        self.reg_set(reg, result);
    }

    pub fn mov_regs(&mut self, reg1: u8, reg2: u8)
        requires
            old(self).wf(),
            reg1 < 16,
            reg2 < 16,
        ensures
            final(self).wf(),
            final(self)@ == spec_mov_regs(old(self)@, reg1, reg2),
    {
        let v = self.reg_get(reg2);
        self.reg_set(reg1, v);
    }

    pub fn or(&mut self, reg1: u8, reg2: u8)
        requires
            old(self).wf(),
            reg1 < 16,
            reg2 < 16,
        ensures
            final(self).wf(),
            final(self)@ == spec_or(old(self)@, reg1, reg2),
    {
        let a = self.reg_get(reg1);
        let b = self.reg_get(reg2);
        self.reg_set(reg1, a | b);
    }

    pub fn and(&mut self, reg1: u8, reg2: u8)
        requires
            old(self).wf(),
            reg1 < 16,
            reg2 < 16,
        ensures
            final(self).wf(),
            final(self)@ == spec_and(old(self)@, reg1, reg2),
    {
        let a = self.reg_get(reg1);
        let b = self.reg_get(reg2);
        self.reg_set(reg1, a & b);
    }

    pub fn xor(&mut self, reg1: u8, reg2: u8)
        requires
            old(self).wf(),
            reg1 < 16,
            reg2 < 16,
        ensures
            final(self).wf(),
            final(self)@ == spec_xor(old(self)@, reg1, reg2),
    {
        let a = self.reg_get(reg1);
        let b = self.reg_get(reg2);
        self.reg_set(reg1, a ^ b);
    }

    /// Vx += Vy; VF reports overflow.
    pub fn add_regs(&mut self, reg1: u8, reg2: u8)
        requires
            old(self).wf(),
            reg1 < 16,
            reg2 < 16,
        ensures
            final(self).wf(),
            final(self)@ == spec_add_regs(old(self)@, reg1, reg2),
    {
        let rv1 = self.reg_get(reg1);
        let rv2 = self.reg_get(reg2);
        let sum = rv1 as u16 + rv2 as u16;
        self.reg_set(reg1, (sum % 256) as u8);
        if sum > 255 {
            self.flag_set(1);
        } else {
            self.flag_set(0);
        }
    }

    /// Vx -= Vy; VF is 1 exactly when no borrow occurred.
    pub fn sub_regs(&mut self, reg1: u8, reg2: u8)
        requires
            old(self).wf(),
            reg1 < 16,
            reg2 < 16,
        ensures
            final(self).wf(),
            final(self)@ == spec_sub_regs(old(self)@, reg1, reg2),
    {
        let rv1 = self.reg_get(reg1);
        let rv2 = self.reg_get(reg2);
        if rv1 >= rv2 {
            self.reg_set(reg1, rv1 - rv2);
            self.flag_set(1);
        } else {
            let diff = (rv1 as u16 + 256 - rv2 as u16) as u8;
            self.reg_set(reg1, diff);
            self.flag_set(0);
        }
    }

    /// Vx = Vy - Vx; same borrow convention, operands swapped.
    pub fn sub_regs_2(&mut self, reg1: u8, reg2: u8)
        requires
            old(self).wf(),
            reg1 < 16,
            reg2 < 16,
        ensures
            final(self).wf(),
            final(self)@ == spec_sub_regs_2(old(self)@, reg1, reg2),
    {
        let rv1 = self.reg_get(reg1);
        let rv2 = self.reg_get(reg2);
        if rv2 >= rv1 {
            self.reg_set(reg1, rv2 - rv1);
            self.flag_set(1);
        } else {
            let diff = (rv2 as u16 + 256 - rv1 as u16) as u8;
            self.reg_set(reg1, diff);
            self.flag_set(0);
        }
    }

    /// Vx = Vy >> 1; VF receives the bit shifted out.
    pub fn shift_right(&mut self, reg: u8, reg2: u8)
        requires
            old(self).wf(),
            reg < 16,
            reg2 < 16,
        ensures
            final(self).wf(),
            final(self)@ == spec_shift_right(old(self)@, reg, reg2),
    {
        let val = self.reg_get(reg2);
        self.flag_set(val % 2);
        self.reg_set(reg, val / 2);
    }

    /// Vx = Vy << 1 truncated; VF receives the high bit as 0 or 1.
    pub fn shift_left(&mut self, reg: u8, reg2: u8)
        requires
            old(self).wf(),
            reg < 16,
            reg2 < 16,
        ensures
            final(self).wf(),
            final(self)@ == spec_shift_left(old(self)@, reg, reg2),
    {
        let val = self.reg_get(reg2);
        self.flag_set(val / 128);
        self.reg_set(reg, ((val as u16 * 2) % 256) as u8);
    }

    pub fn move_i(&mut self, addr: u16)
        ensures
            final(self)@ == spec_move_i(old(self)@, addr),
    {
        self.i = addr;
        proof {
            assert(self@ =~= spec_move_i(old(self)@, addr));
        }
    }

    /// Jump to `addr + V0`.
    pub fn jump_with_add(&mut self, addr: u16)
        requires
            old(self).wf(),
            addr < 4096,
        ensures
            final(self).wf(),
            final(self)@ == spec_jump_with_add(old(self)@, addr),
    {
        let regval = self.reg_get(0) as u16;
        self.jump_to(addr + regval);
    }

    /// Vx = random byte AND mask. The random byte is handed in by the host;
    /// the result is exact for whatever byte was supplied.
    pub fn rnd(&mut self, reg: u8, val: u8, random: u8)
        requires
            old(self).wf(),
            reg < 16,
        ensures
            final(self).wf(),
            final(self)@ == spec_rnd(old(self)@, reg, val, random),
    {
        self.reg_set(reg, random & val);
    }

    pub fn get_dt(&mut self, reg: u8)
        requires
            old(self).wf(),
            reg < 16,
        ensures
            final(self).wf(),
            final(self)@ == spec_get_dt(old(self)@, reg),
    {
        let dt = self.dt;
        self.reg_set(reg, dt);
    }

    pub fn set_dt(&mut self, reg: u8)
        requires
            old(self).wf(),
            reg < 16,
        ensures
            final(self).wf(),
            final(self)@ == spec_set_dt(old(self)@, reg),
    {
        self.dt = self.reg_get(reg);
        proof {
            assert(self@ =~= spec_set_dt(old(self)@, reg));
        }
    }

    pub fn set_st(&mut self, reg: u8)
        requires
            old(self).wf(),
            reg < 16,
        ensures
            final(self).wf(),
            final(self)@ == spec_set_st(old(self)@, reg),
    {
        self.st = self.reg_get(reg);
        proof {
            assert(self@ =~= spec_set_st(old(self)@, reg));
        }
    }

    /// I += Vx modulo 2^16; the index register may legitimately point past
    /// addressable memory, and a later access through it is what fails.
    pub fn add_to_i(&mut self, reg: u8)
        requires
            old(self).wf(),
            reg < 16,
        ensures
            final(self).wf(),
            final(self)@ == spec_add_to_i(old(self)@, reg),
    {
        let v = self.reg_get(reg) as u32;
        self.i = ((self.i as u32 + v) % 0x10000) as u16;
        proof {
            assert(self@ =~= spec_add_to_i(old(self)@, reg));
        }
    }

    /// I = address of the font glyph for the hex digit in Vx, relying on the
    /// fixed font layout: glyphs are contiguous from address 0, 5 bytes each.
    pub fn font(&mut self, reg: u8)
        requires
            old(self).wf(),
            reg < 16,
        ensures
            final(self).wf(),
            final(self)@ == spec_font(old(self)@, reg),
    {
        self.i = self.reg_get(reg) as u16 * FONT_GLYPH_SIZE;
        proof {
            assert(self@ =~= spec_font(old(self)@, reg));
        }
    }

    /// Suspend until a key goes down; the detected key will land in `reg`.
    pub fn wait_for_key(&mut self, reg: u8)
        requires
            old(self).wf(),
            reg < 16,
        ensures
            final(self).wf(),
            final(self)@ == spec_wait_for_key(old(self)@, reg),
    {
        self.state = CpuState::AwaitingKey(reg);
        proof {
            assert(self@ =~= spec_wait_for_key(old(self)@, reg));
        }
    }

    /// Skip the next instruction when the key named by Vx is down.
    pub fn skip_key_pressed(&mut self, reg: u8, input: &Keypad)
        requires
            old(self).wf(),
            reg < 16,
            input.wf(),
            old(self)@.pc + 2 <= u16::MAX,
        ensures
            final(self).wf(),
            final(self)@ == spec_skip_key_pressed(old(self)@, reg, input@),
    {
        let keycode = self.reg_get(reg);
        if input.is_key_pressed(keycode) {
            self.pc_increment();
        }
    }

    /// Skip the next instruction when the key named by Vx is up.
    pub fn skip_key_not_pressed(&mut self, reg: u8, input: &Keypad)
        requires
            old(self).wf(),
            reg < 16,
            input.wf(),
            old(self)@.pc + 2 <= u16::MAX,
        ensures
            final(self).wf(),
            final(self)@ == spec_skip_key_not_pressed(old(self)@, reg, input@),
    {
        let keycode = self.reg_get(reg);
        if keycode < 16 && !input.is_key_pressed(keycode) {
            self.pc_increment();
        }
    }

    /// Draw the `height`-byte sprite at the index register's address at
    /// position (Vx, Vy); VF reports the collision.
    pub fn draw(
        &mut self,
        reg1: u8,
        reg2: u8,
        height: u8,
        mem: &Memory,
        display: &mut PixelBuffer,
    ) -> (r: Result<(), Chip8Error>)
        requires
            old(self).wf(),
            reg1 < 16,
            reg2 < 16,
            mem.wf(),
            old(display).wf(),
        ensures
            final(self).wf(),
            final(display).wf(),
            final(display).columns == old(display).columns,
            final(display).rows == old(display).rows,
            match r {
                Ok(()) => spec_draw_op(old(self)@, mem@, old(display)@, reg1, reg2, height)
                    == Ok::<(CpuView, Seq<Seq<bool>>), Chip8Error>((final(self)@, final(display)@)),
                Err(e) => spec_draw_op(old(self)@, mem@, old(display)@, reg1, reg2, height)
                    == Err::<(CpuView, Seq<Seq<bool>>), Chip8Error>(e) && final(self)@ == old(self)@
                    && final(display)@ == old(display)@,
            },
    {
        match mem.read_range(self.i, height as u16) {
            Ok(bytes) => {
                let sprite = Sprite::new(bytes.as_slice());
                let column = self.reg_get(reg1) as usize;
                let row = self.reg_get(reg2) as usize;
                let collision = display.add_sprite(column, row, sprite);
                if collision {
                    self.flag_set(1);
                } else {
                    self.flag_set(0);
                }
                Ok(())
            },
            Err(e) => Err(e),
        }
    }

    /// Write the decimal digits of Vx, most significant first, at I, I+1 and
    /// I+2.
    pub fn bcd(&mut self, reg: u8, memory: &mut Memory) -> (r: Result<(), Chip8Error>)
        requires
            old(self).wf(),
            reg < 16,
            old(memory).wf(),
        ensures
            final(self).wf(),
            final(memory).wf(),
            final(self)@ == old(self)@,
            match r {
                Ok(()) => spec_bcd(old(self)@, old(memory)@, reg) == Ok::<Seq<u8>, Chip8Error>(
                    final(memory)@,
                ),
                Err(e) => spec_bcd(old(self)@, old(memory)@, reg) == Err::<Seq<u8>, Chip8Error>(e)
                    && final(memory)@ == old(memory)@,
            },
    {
        if self.i as usize + 3 > MEM_SIZE {
            return Err(Chip8Error::OutOfBounds);
        }
        let value = self.reg_get(reg);
        match memory.write_8(value / 100, self.i) {
            Ok(()) => {},
            Err(e) => {
                proof {
                    assert(false);
                }
                return Err(e);
            },
        }
        match memory.write_8((value / 10) % 10, self.i + 1) {
            Ok(()) => {},
            Err(e) => {
                proof {
                    assert(false);
                }
                return Err(e);
            },
        }
        match memory.write_8(value % 10, self.i + 2) {
            Ok(()) => {},
            Err(e) => {
                proof {
                    assert(false);
                }
                return Err(e);
            },
        }
        Ok(())
    }

    /// Store V0..=Vx at consecutive addresses starting at I; I ends up
    /// advanced by x+1.
    pub fn store_range(&mut self, reg: u8, memory: &mut Memory) -> (r: Result<(), Chip8Error>)
        requires
            old(self).wf(),
            reg < 16,
            old(memory).wf(),
        ensures
            final(self).wf(),
            final(memory).wf(),
            match r {
                Ok(()) => spec_store_range(old(self)@, old(memory)@, reg) == Ok::<
                    (CpuView, Seq<u8>),
                    Chip8Error,
                >((final(self)@, final(memory)@)),
                Err(e) => spec_store_range(old(self)@, old(memory)@, reg) == Err::<
                    (CpuView, Seq<u8>),
                    Chip8Error,
                >(e) && final(self)@ == old(self)@ && final(memory)@ == old(memory)@,
            },
    {
        let count = reg as usize + 1;
        if self.i as usize + count > MEM_SIZE {
            return Err(Chip8Error::OutOfBounds);
        }
        let base = self.i;
        let mut k: usize = 0;
        while k < count
            invariant
                self.wf(),
                memory.wf(),
                self@ == old(self)@,
                base == self@.i,
                count == reg as usize + 1,
                reg < 16,
                k <= count,
                base + count <= MEM_SIZE,
                memory@.len() == old(memory)@.len(),
                forall|j: int|
                    0 <= j < memory@.len() ==> #[trigger] memory@[j] == (if base <= j < base + k {
                        old(self)@.regs[j - base]
                    } else {
                        old(memory)@[j]
                    }),
            decreases count - k,
        {
            let val = self.reg_get(k as u8);
            match memory.write_8(val, base + k as u16) {
                Ok(()) => {},
                Err(e) => {
                    proof {
                        assert(false);
                    }
                    return Err(e);
                },
            }
            k = k + 1;
        }
        self.i = base + reg as u16 + 1;
        proof {
            assert(memory@ =~= spec_store_bytes(
                old(memory)@,
                old(self)@.i as int,
                old(self)@.regs,
                reg as int,
            ));
            assert(self@ =~= (CpuView { i: (old(self)@.i + reg + 1) as u16, ..old(self)@ }));
        }
        Ok(())
    }

    /// Load V0..=Vx from consecutive addresses starting at I; I ends up
    /// advanced by x+1.
    pub fn load_range(&mut self, reg: u8, memory: &Memory) -> (r: Result<(), Chip8Error>)
        requires
            old(self).wf(),
            reg < 16,
            memory.wf(),
        ensures
            final(self).wf(),
            match r {
                Ok(()) => spec_load_range(old(self)@, memory@, reg) == Ok::<CpuView, Chip8Error>(
                    final(self)@,
                ),
                Err(e) => spec_load_range(old(self)@, memory@, reg) == Err::<CpuView, Chip8Error>(
                    e,
                ) && final(self)@ == old(self)@,
            },
    {
        let count = reg as usize + 1;
        if self.i as usize + count > MEM_SIZE {
            return Err(Chip8Error::OutOfBounds);
        }
        let base = self.i;
        let mut k: usize = 0;
        while k < count
            invariant
                self.wf(),
                memory.wf(),
                base == self@.i,
                base == old(self)@.i,
                count == reg as usize + 1,
                reg < 16,
                k <= count,
                base + count <= MEM_SIZE,
                self@.regs.len() == REGS,
                forall|j: int|
                    0 <= j < REGS ==> #[trigger] self@.regs[j] == (if 0 <= j < k {
                        memory@[base + j]
                    } else {
                        old(self)@.regs[j]
                    }),
                self@ == (CpuView { regs: self@.regs, ..old(self)@ }),
            decreases count - k,
        {
            let memval = match memory.read_8(base + k as u16) {
                Ok(v) => v,
                Err(e) => {
                    proof {
                        assert(false);
                    }
                    return Err(e);
                },
            };
            self.reg_set(k as u8, memval);
            k = k + 1;
        }
        self.i = base + reg as u16 + 1;
        proof {
            assert(self@.regs =~= spec_load_range(old(self)@, memory@, reg)->Ok_0.regs);
            assert(self@ =~= spec_load_range(old(self)@, memory@, reg)->Ok_0);
        }
        Ok(())
    }

    /// Current program counter.
    pub fn pc(&self) -> (r: u16)
        ensures
            r == self@.pc,
    {
        self.pc
    }

    /// Current value of the index register I.
    pub fn index_reg(&self) -> (r: u16)
        ensures
            r == self@.i,
    {
        self.i
    }

    /// Current value of the delay timer.
    pub fn dt(&self) -> (r: u8)
        ensures
            r == self@.dt,
    {
        self.dt
    }

    /// Current value of the sound timer.
    pub fn st(&self) -> (r: u8)
        ensures
            r == self@.st,
    {
        self.st
    }

    /// Current depth of the call stack.
    pub fn stack_len(&self) -> (r: usize)
        ensures
            r == self@.stack.len(),
    {
        self.stack.len()
    }

    /// Whether the processor is running or suspended awaiting a key.
    pub fn state(&self) -> (r: CpuState)
        ensures
            r == self@.state,
    {
        self.state
    }

    /// The on/off signal for the external audio device, given whether it is
    /// currently playing.
    pub fn beeper_gate(&self, playing: bool) -> (r: bool)
        ensures
            r == spec_beeper(self@.st, playing),
    {
        if self.st > 1 {
            true
        } else if self.st < 1 {
            false
        } else {
            playing
        }
    }

    /// One fetch-decode-execute step, or one poll of the keys while a key is
    /// awaited. The whole behavior is pinned by [`spec_step`].
    #[verifier::rlimit(60)]
    pub fn step(
        &mut self,
        memory: &mut Memory,
        display: &mut PixelBuffer,
        input: &Keypad,
        random: u8,
    ) -> (r: Result<(), Chip8Error>)
        requires
            old(self).wf(),
            old(memory).wf(),
            old(display).wf(),
            input.wf(),
        ensures
            final(self).wf(),
            final(memory).wf(),
            final(display).wf(),
            final(display).columns == old(display).columns,
            final(display).rows == old(display).rows,
            final(self)@ == spec_step(old(self)@, old(memory)@, old(display)@, input@, random).0,
            final(memory)@ == spec_step(old(self)@, old(memory)@, old(display)@, input@, random).1,
            final(display)@ == spec_step(old(self)@, old(memory)@, old(display)@, input@, random).2,
            (match r {
                Ok(()) => None::<Chip8Error>,
                Err(e) => Some(e),
            }) == spec_step(old(self)@, old(memory)@, old(display)@, input@, random).3,
    {
        let ghost spec_res = spec_step(old(self)@, old(memory)@, old(display)@, input@, random);
        match self.state {
            CpuState::AwaitingKey(target) => {
                match input.first_pressed() {
                    Some(k) => {
                        self.reg_set(target, k);
                        self.state = CpuState::Running;
                        proof {
                            assert(self@ =~= spec_res.0);
                        }
                    },
                    None => {},
                }
                return Ok(());
            },
            CpuState::Running => {},
        }
        let instruction = match memory.read_range(self.pc, 2) {
            Ok(bytes) => bytes,
            Err(e) => {
                return Err(e);
            },
        };
        self.pc_increment();
        let (o1, o2, o3, o4) = nibbles(instruction.as_slice());
        let addr = address(instruction.as_slice());
        let value = instruction[1];
        let ghost c1 = spec_pc_advance(old(self)@);
        let ghost d = spec_dispatch(
            c1,
            old(memory)@,
            old(display)@,
            input@,
            random,
            o1,
            o2,
            o3,
            o4,
            addr,
            value,
        );
        proof {
            assert(instruction@[0] == old(memory)@[old(self)@.pc as int]);
            assert(instruction@[1] == old(memory)@[old(self)@.pc + 1]);
            assert(self@ == c1);
        }
        let op_result: Result<(), Chip8Error> = match (o1, o2, o3, o4) {
            (0x0, 0x0, 0xE, 0x0) => {
                display.clear();
                Ok(())
            },
            (0x0, 0x0, 0xE, 0xE) => self.return_from_subroutine(),
            (0x1, _, _, _) => {
                self.jump_to(addr);
                Ok(())
            },
            (0x2, _, _, _) => self.call(addr),
            (0x3, reg, _, _) => {
                self.skip_equal(reg, value);
                Ok(())
            },
            (0x4, reg, _, _) => {
                self.skip_not_equal(reg, value);
                Ok(())
            },
            (0x5, r1, r2, 0x0) => {
                self.skip_regs_equal(r1, r2);
                Ok(())
            },
            (0x6, reg, _, _) => {
                self.mov(reg, value);
                Ok(())
            },
            (0x7, reg, _, _) => {
                self.add(reg, value);
                Ok(())
            },
            (0x8, r1, r2, 0x0) => {
                self.mov_regs(r1, r2);
                Ok(())
            },
            (0x8, r1, r2, 0x1) => {
                self.or(r1, r2);
                Ok(())
            },
            (0x8, r1, r2, 0x2) => {
                self.and(r1, r2);
                Ok(())
            },
            (0x8, r1, r2, 0x3) => {
                self.xor(r1, r2);
                Ok(())
            },
            (0x8, r1, r2, 0x4) => {
                self.add_regs(r1, r2);
                Ok(())
            },
            (0x8, r1, r2, 0x5) => {
                self.sub_regs(r1, r2);
                Ok(())
            },
            (0x8, r1, r2, 0x6) => {
                self.shift_right(r1, r2);
                Ok(())
            },
            (0x8, r1, r2, 0x7) => {
                self.sub_regs_2(r1, r2);
                Ok(())
            },
            (0x8, r1, r2, 0xE) => {
                self.shift_left(r1, r2);
                Ok(())
            },
            (0x9, r1, r2, 0x0) => {
                self.skip_not_regs_equal(r1, r2);
                Ok(())
            },
            (0xA, _, _, _) => {
                self.move_i(addr);
                Ok(())
            },
            (0xB, _, _, _) => {
                self.jump_with_add(addr);
                Ok(())
            },
            (0xC, reg, _, _) => {
                self.rnd(reg, value, random);
                Ok(())
            },
            (0xD, r1, r2, n) => self.draw(r1, r2, n, memory, display),
            (0xE, reg, 0x9, 0xE) => {
                self.skip_key_pressed(reg, input);
                Ok(())
            },
            (0xE, reg, 0xA, 0x1) => {
                self.skip_key_not_pressed(reg, input);
                Ok(())
            },
            (0xF, reg, 0x0, 0x7) => {
                self.get_dt(reg);
                Ok(())
            },
            (0xF, reg, 0x0, 0xA) => {
                self.wait_for_key(reg);
                Ok(())
            },
            (0xF, reg, 0x1, 0x5) => {
                self.set_dt(reg);
                Ok(())
            },
            (0xF, reg, 0x1, 0x8) => {
                self.set_st(reg);
                Ok(())
            },
            (0xF, reg, 0x1, 0xE) => {
                self.add_to_i(reg);
                Ok(())
            },
            (0xF, reg, 0x2, 0x9) => {
                self.font(reg);
                Ok(())
            },
            (0xF, reg, 0x3, 0x3) => self.bcd(reg, memory),
            (0xF, reg, 0x5, 0x5) => self.store_range(reg, memory),
            (0xF, reg, 0x6, 0x5) => self.load_range(reg, memory),
            _ => Err(Chip8Error::IllegalInstruction),
        };
        proof {
            assert(self@ == d.0 && memory@ == d.1 && display@ == d.2 && (match op_result {
                Ok(()) => None::<Chip8Error>,
                Err(e) => Some(e),
            }) == d.3);
        }
        match op_result {
            Ok(()) => {},
            Err(e) => {
                return Err(e);
            },
        }
        self.dt_decrement();
        self.st_decrement();
        proof {
            assert(self@ =~= spec_tick(d.0));
        }
        Ok(())
    }
}

} // verus!
