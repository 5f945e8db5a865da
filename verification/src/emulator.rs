//! The machine state: register file, status word, RAM and code store.

use vstd::prelude::*;
use crate::psw::Psw;
use crate::ram::{Ram, RAM_SIZE};
use crate::regs::{Register16, Register8};

verus! {

/// The register file: accumulator, auxiliary register, data pointer,
/// program counter and stack pointer.
pub struct AllRegs {
    pub a: Register8,
    pub b: Register8,
    pub dptr: Register16,
    pub pc: Register16,
    pub sp: Register8,
}

/// The mathematical model of a whole machine: every register as a plain
/// integer, the RAM and the code store as byte sequences.
#[verifier::ext_equal]
pub struct MachineView {
    pub a: u8,
    pub b: u8,
    pub dptr: u16,
    pub pc: u16,
    pub sp: u8,
    pub psw: u8,
    pub ram: Seq<u8>,
    pub rom: Seq<u8>,
}

/// One simulated machine. The code store (`rom`) is installed once with
/// [`Emulator::burn`] and treated as read-only by the execution engine.
pub struct Emulator {
    pub psw: Psw,
    pub ram: Ram,
    pub reg: AllRegs,
    pub rom: Vec<u8>,
}

impl View for Emulator {
    type V = MachineView;

    open spec fn view(&self) -> MachineView {
        MachineView {
            a: self.reg.a.value,
            b: self.reg.b.value,
            dptr: self.reg.dptr.value,
            pc: self.reg.pc.value,
            sp: self.reg.sp.value,
            psw: self.psw.value,
            ram: self.ram.memory@,
            rom: self.rom@,
        }
    }
}

impl Emulator {
    /// Whether the machine is well-formed: its RAM has its fixed size.
    pub open spec fn wf(&self) -> bool {
        self.ram.wf()
    }

    /// A fresh machine: all registers and RAM zeroed, except the stack
    /// pointer, which starts just below the first stack slot.
    pub fn new() -> (r: Emulator)
        ensures
            r.wf(),
            r@.a == 0,
            r@.b == 0,
            r@.dptr == 0,
            r@.pc == 0,
            r@.sp == 0x07,
            r@.psw == 0,
            r@.ram == Seq::<u8>::new(RAM_SIZE as nat, |i: int| 0u8),
            r@.rom == Seq::<u8>::empty(),
    {
        let mut res = Emulator {
            psw: Psw::new(),
            ram: Ram::new(),
            reg: AllRegs {
                a: Register8::new(),
                b: Register8::new(),
                dptr: Register16::new(),
                pc: Register16::new(),
                sp: Register8::new(),
            },
            rom: Vec::new(),
        };
        // The stack pointer starts at 0x07: a push first increments it,
        // so the first stacked byte lands at 0x08.
        res.reg.sp.set(0x07);
        proof {
            assert(res@.rom =~= Seq::<u8>::empty());
        }
        res
    }

    /// Install a program into the code store.
    pub fn burn(&mut self, bytes: Vec<u8>)
        ensures
            final(self)@ == (MachineView { rom: bytes@, ..old(self)@ }),
            final(self).wf() == old(self).wf(),
    {
        self.rom = bytes;
    }
}

} // verus!
