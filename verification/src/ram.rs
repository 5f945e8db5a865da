//! The 128-byte on-chip RAM, home of the four register banks.

use vstd::prelude::*;

verus! {

/// Number of addressable bytes of on-chip RAM.
pub const RAM_SIZE: usize = 128;

/// A fixed-size byte memory. Well-formed values always hold exactly
/// `RAM_SIZE` bytes.
#[derive(Debug)]
pub struct Ram {
    pub memory: Vec<u8>,
}

impl Ram {
    /// Whether the memory has its fixed size.
    pub open spec fn wf(&self) -> bool {
        self.memory@.len() == RAM_SIZE
    }

    /// Fresh RAM is all zeroes.
    pub fn new() -> (r: Ram)
        ensures
            r.wf(),
            r.memory@ == Seq::<u8>::new(RAM_SIZE as nat, |i: int| 0u8),
    {
        let mut memory: Vec<u8> = Vec::new();
        let mut i: usize = 0;
        while i < RAM_SIZE
            invariant
                i <= RAM_SIZE,
                memory@ =~= Seq::<u8>::new(i as nat, |j: int| 0u8),
            decreases RAM_SIZE - i,
        {
            memory.push(0);
            i += 1;
        }
        proof {
            assert(memory@ =~= Seq::<u8>::new(RAM_SIZE as nat, |i: int| 0u8));
        }
        Ram { memory }
    }

    /// Store `data` at `address`, leaving every other byte alone.
    pub fn write(&mut self, address: usize, data: u8)
        requires
            old(self).wf(),
            address < RAM_SIZE,
        ensures
            final(self).wf(),
            final(self).memory@ == old(self).memory@.update(address as int, data),
    {
        self.memory.set(address, data);
    }

    /// Read the byte at `address`.
    pub fn read(&self, address: usize) -> (r: u8)
        requires
            self.wf(),
            address < RAM_SIZE,
        ensures
            r == self.memory@[address as int],
    {
        self.memory[address]
    }
}

} // verus!
