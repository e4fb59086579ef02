//! The flat addressable byte store of the machine: 4096 bytes, with
//! bounds-checked single-byte reads and writes and bounds-checked range
//! reads. Out-of-range access is reported as `OutOfBounds`, never wrapped.

use vstd::prelude::*;

use crate::Chip8Error;

verus! {

/// Total number of addressable bytes.
pub const MEM_SIZE: usize = 4096;

pub struct Memory {
    data: Vec<u8>,
}

impl View for Memory {
    type V = Seq<u8>;

    closed spec fn view(&self) -> Seq<u8> {
        self.data@
    }
}

impl Memory {
    /// A memory is well formed when it holds exactly `MEM_SIZE` bytes.
    pub open spec fn wf(&self) -> bool {
        self@.len() == MEM_SIZE
    }

    /// Fresh memory, all bytes zero.
    pub fn new() -> (m: Memory)
        ensures
            m.wf(),
            forall|j: int| 0 <= j < MEM_SIZE ==> m@[j] == 0u8,
    {
        let data: Vec<u8> = vec![0u8; MEM_SIZE];
        Memory { data }
    }

    /// Store `b` at `addr`; fails iff `addr` is out of range, leaving the
    /// memory unchanged in that case.
    pub fn write_8(&mut self, b: u8, addr: u16) -> (r: Result<(), Chip8Error>)
        requires
            old(self).wf(),
        ensures
            final(self).wf(),
            match r {
                Ok(()) => (addr as int) < MEM_SIZE && final(self)@ == old(self)@.update(
                    addr as int,
                    b,
                ),
                Err(e) => (addr as int) >= MEM_SIZE && e == Chip8Error::OutOfBounds
                    && final(self)@ == old(self)@,
            },
    {
        if (addr as usize) < MEM_SIZE {
            self.data[addr as usize] = b;
            Ok(())
        } else {
            Err(Chip8Error::OutOfBounds)
        }
    }

    /// Read the byte at `addr`; fails iff `addr` is out of range.
    pub fn read_8(&self, addr: u16) -> (r: Result<u8, Chip8Error>)
        requires
            self.wf(),
        ensures
            match r {
                Ok(b) => (addr as int) < MEM_SIZE && b == self@[addr as int],
                Err(e) => (addr as int) >= MEM_SIZE && e == Chip8Error::OutOfBounds,
            },
    {
        if (addr as usize) < MEM_SIZE {
            Ok(self.data[addr as usize])
        } else {
            Err(Chip8Error::OutOfBounds)
        }
    }

    /// Read `num` consecutive bytes starting at `addr`; fails iff the range
    /// `addr .. addr + num` reaches past the end of memory.
    pub fn read_range(&self, addr: u16, num: u16) -> (r: Result<Vec<u8>, Chip8Error>)
        requires
            self.wf(),
        ensures
            match r {
                Ok(bytes) => addr + num <= MEM_SIZE && bytes@ == self@.subrange(
                    addr as int,
                    addr + num,
                ),
                Err(e) => addr + num > MEM_SIZE && e == Chip8Error::OutOfBounds,
            },
    {
        let a = addr as usize;
        let n = num as usize;
        if n <= MEM_SIZE && a <= MEM_SIZE - n {
            let mut bytes: Vec<u8> = Vec::new();
            let mut k: usize = 0;
            while k < n
                invariant
                    self.wf(),
                    a + n <= MEM_SIZE,
                    k <= n,
                    bytes@.len() == k,
                    forall|j: int| 0 <= j < k ==> bytes@[j] == self@[a + j],
                decreases n - k,
            {
                bytes.push(self.data[a + k]);
                k = k + 1;
            }
            proof {
                assert(bytes@ =~= self@.subrange(addr as int, addr + num));
            }
            Ok(bytes)
        } else {
            Err(Chip8Error::OutOfBounds)
        }
    }
}

} // verus!
