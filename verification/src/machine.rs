//! The assembled machine: memory, processor and framebuffer, wired together
//! with the fixed font table and a loaded program. The host owns the window,
//! the audio device and the real keyboard; it drives [`Machine::step`] and
//! presents the framebuffer and the beeper signal.

use vstd::prelude::*;

use crate::cpu::{spec_beeper, spec_cpu_zero, spec_step, Cpu, CpuView, START_ADDR};
use crate::display::PixelBuffer;
use crate::input::Keypad;
use crate::mem::{Memory, MEM_SIZE};
use crate::Chip8Error;

verus! {

/// Number of bytes in the built-in font table: 16 glyphs of 5 bytes.
pub const FONT_BYTES: usize = 80;

/// The fixed font table: one 5-byte glyph per hex digit 0..F, identical
/// across all runs. Glyph `d` occupies bytes `5 * d .. 5 * d + 5`.
pub open spec fn font_data() -> Seq<u8> {
    seq![
        0xF0u8, 0x90, 0x90, 0x90, 0xF0,
        0x20, 0x60, 0x20, 0x20, 0x70,
        0xF0, 0x10, 0xF0, 0x80, 0xF0,
        0xF0, 0x10, 0xF0, 0x10, 0xF0,
        0x90, 0x90, 0xF0, 0x10, 0x10,
        0xF0, 0x80, 0xF0, 0x10, 0xF0,
        0xF0, 0x80, 0xF0, 0x90, 0xF0,
        0xF0, 0x10, 0x20, 0x40, 0x40,
        0xF0, 0x90, 0xF0, 0x90, 0xF0,
        0xF0, 0x90, 0xF0, 0x10, 0xF0,
        0xF0, 0x90, 0xF0, 0x90, 0x90,
        0xE0, 0x90, 0xE0, 0x90, 0xE0,
        0xF0, 0x80, 0x80, 0x80, 0xF0,
        0xE0, 0x90, 0x90, 0x90, 0xE0,
        0xF0, 0x80, 0xF0, 0x80, 0xF0,
        0xF0, 0x80, 0xF0, 0x80, 0x80,
    ]
}

/// Memory with `bytes` written verbatim starting at `base`.
pub open spec fn spec_write_seq(mem: Seq<u8>, base: int, bytes: Seq<u8>) -> Seq<u8> {
    Seq::new(
        mem.len(),
        |j: int|
            if base <= j < base + bytes.len() {
                bytes[j - base]
            } else {
                mem[j]
            },
    )
}

/// An opaque program image, loaded into memory before execution begins.
#[derive(Debug)]
pub struct Rom {
    content: Vec<u8>,
}

impl View for Rom {
    type V = Seq<u8>;

    closed spec fn view(&self) -> Seq<u8> {
        self.content@
    }
}

impl Rom {
    /// Wrap raw program bytes; the host reads them from wherever they live.
    pub fn new(content: Vec<u8>) -> (r: Rom)
        ensures
            r@ == content@,
    {
        Rom { content }
    }

    /// A copy of the program bytes.
    pub fn get_bytes(&self) -> (r: Vec<u8>)
        ensures
            r@ == self@,
    {
        let mut out: Vec<u8> = Vec::new();
        let mut k: usize = 0;
        while k < self.content.len()
            invariant
                k <= self.content@.len(),
                out@ =~= self.content@.subrange(0, k as int),
            decreases self.content@.len() - k,
        {
            out.push(self.content[k]);
            k = k + 1;
        }
        proof {
            assert(out@ =~= self@);
        }
        out
    }
}

/// Memory, processor, framebuffer and the beeper signal, as one unit.
pub struct Machine {
    pub memory: Memory,
    pub cpu: Cpu,
    pub display: PixelBuffer,
    /// Whether the external audio device should currently be playing.
    pub beeper: bool,
}

impl Machine {
    pub open spec fn wf(&self) -> bool {
        &&& self.memory.wf()
        &&& self.cpu.wf()
        &&& self.display.wf()
    }

    /// A fresh machine with zeroed memory and registers and a dark screen of
    /// the given dimensions.
    pub fn new(columns: usize, rows: usize) -> (m: Machine)
        requires
            columns >= 1,
            rows >= 1,
        ensures
            m.wf(),
            m.cpu@ == spec_cpu_zero(),
            forall|j: int| 0 <= j < MEM_SIZE ==> m.memory@[j] == 0u8,
            m.display.columns == columns,
            m.display.rows == rows,
            forall|y: int, x: int| 0 <= y < rows && 0 <= x < columns ==> !m.display@[y][x],
            !m.beeper,
    {
        Machine {
            memory: Memory::new(),
            cpu: Cpu::new(),
            display: PixelBuffer::new(columns, rows),
            beeper: false,
        }
    }

    /// Write the program bytes verbatim into memory starting at `offset`;
    /// fails iff they would reach past the end of memory, changing nothing
    /// in that case.
    pub fn load_rom(&mut self, rom: &Rom, offset: u16) -> (r: Result<(), Chip8Error>)
        requires
            old(self).wf(),
        ensures
            final(self).wf(),
            final(self).cpu == old(self).cpu,
            final(self).display == old(self).display,
            final(self).beeper == old(self).beeper,
            match r {
                Ok(()) => offset + rom@.len() <= MEM_SIZE && final(self).memory@ == spec_write_seq(
                    old(self).memory@,
                    offset as int,
                    rom@,
                ),
                Err(e) => offset + rom@.len() > MEM_SIZE && e == Chip8Error::OutOfBounds
                    && final(self).memory@ == old(self).memory@,
            },
    {
        let len = rom.content.len();
        if len > MEM_SIZE || offset as usize > MEM_SIZE - len {
            return Err(Chip8Error::OutOfBounds);
        }
        let mut k: usize = 0;
        while k < len
            invariant
                self.memory.wf(),
                self.cpu == old(self).cpu,
                self.display == old(self).display,
                self.beeper == old(self).beeper,
                k <= len,
                len == rom@.len(),
                offset + len <= MEM_SIZE,
                forall|j: int|
                    0 <= j < MEM_SIZE ==> #[trigger] self.memory@[j] == (if offset <= j < offset
                        + k {
                        rom@[j - offset]
                    } else {
                        old(self).memory@[j]
                    }),
            decreases len - k,
        {
            match self.memory.write_8(rom.content[k], offset + k as u16) {
                Ok(()) => {},
                Err(e) => {
                    proof {
                        assert(false);
                    }
                    return Err(e);
                },
            }
            k = k + 1;
        }
        proof {
            assert(self.memory@ =~= spec_write_seq(old(self).memory@, offset as int, rom@));
        }
        Ok(())
    }

    /// Write the fixed font table into memory starting at `offset`; fails
    /// iff it would reach past the end of memory.
    pub fn load_fonts(&mut self, offset: u16) -> (r: Result<(), Chip8Error>)
        requires
            old(self).wf(),
        ensures
            final(self).wf(),
            final(self).cpu == old(self).cpu,
            final(self).display == old(self).display,
            final(self).beeper == old(self).beeper,
            match r {
                Ok(()) => offset + FONT_BYTES <= MEM_SIZE && final(self).memory@ == spec_write_seq(
                    old(self).memory@,
                    offset as int,
                    font_data(),
                ),
                Err(e) => offset + FONT_BYTES > MEM_SIZE && e == Chip8Error::OutOfBounds
                    && final(self).memory@ == old(self).memory@,
            },
    {
        let font_set: Vec<u8> = vec![
            0xF0u8, 0x90, 0x90, 0x90, 0xF0,
            0x20, 0x60, 0x20, 0x20, 0x70,
            0xF0, 0x10, 0xF0, 0x80, 0xF0,
            0xF0, 0x10, 0xF0, 0x10, 0xF0,
            0x90, 0x90, 0xF0, 0x10, 0x10,
            0xF0, 0x80, 0xF0, 0x10, 0xF0,
            0xF0, 0x80, 0xF0, 0x90, 0xF0,
            0xF0, 0x10, 0x20, 0x40, 0x40,
            0xF0, 0x90, 0xF0, 0x90, 0xF0,
            0xF0, 0x90, 0xF0, 0x10, 0xF0,
            0xF0, 0x90, 0xF0, 0x90, 0x90,
            0xE0, 0x90, 0xE0, 0x90, 0xE0,
            0xF0, 0x80, 0x80, 0x80, 0xF0,
            0xE0, 0x90, 0x90, 0x90, 0xE0,
            0xF0, 0x80, 0xF0, 0x80, 0xF0,
            0xF0, 0x80, 0xF0, 0x80, 0x80,
        ];
        proof {
            assert(font_set@ =~= font_data());
        }
        if offset as usize > MEM_SIZE - FONT_BYTES {
            return Err(Chip8Error::OutOfBounds);
        }
        let mut k: usize = 0;
        while k < FONT_BYTES
            invariant
                self.memory.wf(),
                self.cpu == old(self).cpu,
                self.display == old(self).display,
                self.beeper == old(self).beeper,
                k <= FONT_BYTES,
                font_set@ == font_data(),
                font_set@.len() == FONT_BYTES,
                offset + FONT_BYTES <= MEM_SIZE,
                forall|j: int|
                    0 <= j < MEM_SIZE ==> #[trigger] self.memory@[j] == (if offset <= j < offset
                        + k {
                        font_data()[j - offset]
                    } else {
                        old(self).memory@[j]
                    }),
            decreases FONT_BYTES - k,
        {
            match self.memory.write_8(font_set[k], offset + k as u16) {
                Ok(()) => {},
                Err(e) => {
                    proof {
                        assert(false);
                    }
                    return Err(e);
                },
            }
            k = k + 1;
        }
        proof {
            assert(self.memory@ =~= spec_write_seq(old(self).memory@, offset as int, font_data()));
        }
        Ok(())
    }

    /// Load the program at the program origin, the font table at address 0,
    /// and reset the processor. Fails iff the program does not fit, changing
    /// nothing in that case.
    pub fn init(&mut self, rom: Rom) -> (r: Result<(), Chip8Error>)
        requires
            old(self).wf(),
        ensures
            final(self).wf(),
            final(self).display == old(self).display,
            final(self).beeper == old(self).beeper,
            match r {
                Ok(()) => START_ADDR + rom@.len() <= MEM_SIZE && final(self).memory@
                    == spec_write_seq(
                    spec_write_seq(old(self).memory@, START_ADDR as int, rom@),
                    0,
                    font_data(),
                ) && final(self).cpu@ == (CpuView { pc: START_ADDR, ..spec_cpu_zero() }),
                Err(e) => START_ADDR + rom@.len() > MEM_SIZE && e == Chip8Error::OutOfBounds
                    && final(self).memory@ == old(self).memory@ && final(self).cpu == old(
                    self,
                ).cpu,
            },
    {
        match self.load_rom(&rom, START_ADDR) {
            Ok(()) => {},
            Err(e) => {
                return Err(e);
            },
        }
        match self.load_fonts(0) {
            Ok(()) => {},
            Err(e) => {
                proof {
                    assert(false);
                }
                return Err(e);
            },
        }
        self.cpu.reset();
        Ok(())
    }

    /// One machine step: one instruction (or one poll while a key is
    /// awaited), then the beeper signal is recomputed from the sound timer.
    /// On a fatal error the machine is left as the failed operation left it
    /// and the beeper signal is unchanged.
    pub fn step(&mut self, input: &Keypad, random: u8) -> (r: Result<(), Chip8Error>)
        requires
            old(self).wf(),
            input.wf(),
        ensures
            final(self).wf(),
            final(self).display.columns == old(self).display.columns,
            final(self).display.rows == old(self).display.rows,
            ({
                let s = spec_step(
                    old(self).cpu@,
                    old(self).memory@,
                    old(self).display@,
                    input@,
                    random,
                );
                &&& final(self).cpu@ == s.0
                &&& final(self).memory@ == s.1
                &&& final(self).display@ == s.2
                &&& (match r {
                    Ok(()) => s.3 is None && final(self).beeper == spec_beeper(
                        s.0.st,
                        old(self).beeper,
                    ),
                    Err(e) => s.3 == Some(e) && final(self).beeper == old(self).beeper,
                })
            }),
    {
        match self.cpu.step(&mut self.memory, &mut self.display, input, random) {
            Ok(()) => {
                self.beeper = self.cpu.beeper_gate(self.beeper);
                Ok(())
            },
            Err(e) => Err(e),
        }
    }
}

} // verus!
