//! The execution engine: a fetch-decode-execute loop over the code store.
//!
//! Decoding mirrors the encodings of [`crate::codegen`] by the same
//! base-plus-offset arithmetic. An opcode outside the recognized set is a
//! deliberate no-op that still advances the program counter by one.

use vstd::prelude::*;
use vstd::arithmetic::div_mod::lemma_mod_multiples_vanish;
use crate::emulator::{Emulator, MachineView};
use crate::psw::PswFlag;
use crate::ram::RAM_SIZE;
use crate::regs::bit8_get;

verus! {

/// How a run ended: the end opcode was fetched, a fetch left the code
/// store or the program counter overflowed, or the instruction budget ran
/// out first.
#[derive(Clone, Copy, PartialEq, Eq, Structural, Debug)]
pub enum RunStatus {
    Halted,
    Fault,
    OutOfFuel,
}

/// What one machine step does: halt on the end opcode, fault, or move to
/// the next state.
#[verifier::ext_equal]
pub enum StepResult {
    Halt,
    Next(MachineView),
    Fault,
}

/// Base RAM address of the active register bank, a pure function of the
/// current PSW: bits `RS1:RS0` (bits 4 and 3) select banks at 0x00, 0x08,
/// 0x10 and 0x18.
pub open spec fn bank_base(psw: u8) -> nat {
    ((if bit8_get(psw, 4) {
        16int
    } else {
        0int
    }) + (if bit8_get(psw, 3) {
        8int
    } else {
        0int
    })) as nat
}

/// A relative-branch byte read as a signed displacement.
pub open spec fn sign_ext(rel: u8) -> int {
    if rel >= 0x80 {
        rel - 256
    } else {
        rel as int
    }
}

/// Where `sjmp` lands: the displacement is taken from the address of the
/// following instruction, wrapping at 16 bits.
pub open spec fn sjmp_target(pc: u16, rel: u8) -> u16 {
    (((pc + 2 + sign_ext(rel)) % 0x10000) as u16)
}

/// 8-bit addition with native-width wraparound.
pub open spec fn wrap_add8(a: u8, b: u8) -> u8 {
    (((a + b) % 256) as u8)
}

/// The next program counter for a non-jump instruction of width `w`:
/// running off the 16-bit address space is a fault.
pub open spec fn with_pc(s: MachineView, pc: int) -> StepResult {
    if pc > 0xffff {
        StepResult::Fault
    } else {
        StepResult::Next(MachineView { pc: pc as u16, ..s })
    }
}

/// One fetch-decode-execute step of the machine.
pub open spec fn step_spec(s: MachineView) -> StepResult {
    let pc = s.pc as int;
    let bank = bank_base(s.psw) as int;
    if pc >= s.rom.len() {
        StepResult::Fault
    } else {
        let op = s.rom[pc];
        if op == 0x00 {
            StepResult::Halt
        } else if 0x74 <= op <= 0x7b {
            // mov Rn, #data
            if pc + 1 >= s.rom.len() {
                StepResult::Fault
            } else {
                with_pc(
                    MachineView { ram: s.ram.update(bank + (op - 0x74), s.rom[pc + 1]), ..s },
                    pc + 2,
                )
            }
        } else if 0x7c <= op <= 0x7f {
            // mov Rn, Rm
            let n = (op - 0x7c) / 8;
            let m = (op - 0x7c) % 8;
            with_pc(MachineView { ram: s.ram.update(bank + n, s.ram[bank + m]), ..s }, pc + 1)
        } else if 0x84 <= op <= 0x8b {
            // mov A, Rn
            with_pc(MachineView { a: s.ram[bank + (op - 0x84)], ..s }, pc + 1)
        } else if op == 0x8c {
            // mov A, #data
            if pc + 1 >= s.rom.len() {
                StepResult::Fault
            } else {
                with_pc(MachineView { a: s.rom[pc + 1], ..s }, pc + 2)
            }
        } else if 0x8d <= op <= 0x94 {
            // mov Rn, A
            with_pc(MachineView { ram: s.ram.update(bank + (op - 0x8d), s.a), ..s }, pc + 1)
        } else if 0x95 <= op <= 0x9c {
            // mov B, Rn
            with_pc(MachineView { b: s.ram[bank + (op - 0x95)], ..s }, pc + 1)
        } else if op == 0x9d {
            // mov B, #data
            if pc + 1 >= s.rom.len() {
                StepResult::Fault
            } else {
                with_pc(MachineView { b: s.rom[pc + 1], ..s }, pc + 2)
            }
        } else if 0x9e <= op <= 0xa5 {
            // mov Rn, B
            with_pc(MachineView { ram: s.ram.update(bank + (op - 0x9e), s.b), ..s }, pc + 1)
        } else if op == 0xa6 {
            // mov A, B
            with_pc(MachineView { a: s.b, ..s }, pc + 1)
        } else if op == 0xa7 {
            // mov B, A
            with_pc(MachineView { b: s.a, ..s }, pc + 1)
        } else if op == 0x50 {
            // add A, #data
            if pc + 1 >= s.rom.len() {
                StepResult::Fault
            } else {
                with_pc(MachineView { a: wrap_add8(s.a, s.rom[pc + 1]), ..s }, pc + 2)
            }
        } else if op == 0x51 {
            // add A, B
            with_pc(MachineView { a: wrap_add8(s.a, s.b), ..s }, pc + 1)
        } else if 0x52 <= op <= 0x59 {
            // add A, Rn
            with_pc(MachineView { a: wrap_add8(s.a, s.ram[bank + (op - 0x52)]), ..s }, pc + 1)
        } else if op == 0x5a {
            // add A, A
            with_pc(MachineView { a: wrap_add8(s.a, s.a), ..s }, pc + 1)
        } else if op == 0x28 {
            // sjmp rel8
            if pc + 1 >= s.rom.len() {
                StepResult::Fault
            } else {
                StepResult::Next(MachineView { pc: sjmp_target(s.pc, s.rom[pc + 1]), ..s })
            }
        } else if op == 0x29 {
            // ljmp addr16
            if pc + 2 >= s.rom.len() {
                StepResult::Fault
            } else {
                StepResult::Next(
                    MachineView { pc: (s.rom[pc + 1] * 256 + s.rom[pc + 2]) as u16, ..s },
                )
            }
        } else {
            // Unrecognized opcode: tolerant decode, a no-op of width 1.
            with_pc(s, pc + 1)
        }
    }
}

/// Run the machine for at most `fuel` steps: the final state, and how the
/// run ended. Halting and faulting leave the program counter where the
/// fetch happened.
pub open spec fn run_spec(s: MachineView, fuel: nat) -> (MachineView, RunStatus)
    decreases fuel,
{
    if fuel == 0 {
        (s, RunStatus::OutOfFuel)
    } else {
        match step_spec(s) {
            StepResult::Halt => (s, RunStatus::Halted),
            StepResult::Fault => (s, RunStatus::Fault),
            StepResult::Next(s2) => run_spec(s2, (fuel - 1) as nat),
        }
    }
}

/// The execution engine: owns a machine and runs the program burned into
/// its code store.
pub struct AsmContext {
    pub em: Emulator,
}

impl AsmContext {
    /// An engine around the given machine.
    pub fn new(em: Emulator) -> (r: AsmContext)
        ensures
            r.em == em,
    {
        AsmContext { em }
    }

    /// The fetch-decode-execute loop: run until the end opcode halts the
    /// machine, a fetch faults, or `fuel` instructions have executed.
    pub fn run(&mut self, fuel: u64) -> (r: RunStatus)
        requires
            old(self).em.wf(),
        ensures
            final(self).em.wf(),
            (final(self).em@, r) == run_spec(old(self).em@, fuel as nat),
    {
        let mut remaining = fuel;
        loop
            invariant
                self.em.wf(),
                remaining <= fuel,
                run_spec(self.em@, remaining as nat) == run_spec(old(self).em@, fuel as nat),
            decreases remaining,
        {
            let ghost head = self.em@;
            if remaining == 0 {
                return RunStatus::OutOfFuel;
            }
            let pc = self.em.reg.pc.get();
            let romlen = self.em.rom.len();
            if pc as usize >= romlen {
                return RunStatus::Fault;
            }
            let opcode = self.em.rom[pc as usize];
            let rs1 = self.em.psw.get_flag(PswFlag::RS1);
            let rs0 = self.em.psw.get_flag(PswFlag::RS0);
            let bank: usize = (if rs1 {
                16
            } else {
                0
            }) + (if rs0 {
                8
            } else {
                0
            });
            proof {
                assert(bank == bank_base(head.psw));
                assert(bank + 7 < RAM_SIZE);
            }
            if opcode == 0x00 {
                return RunStatus::Halted;
            }
            if 0x74 <= opcode && opcode <= 0x7b {
                // mov Rn, #data
                if pc as usize + 1 >= romlen {
                    return RunStatus::Fault;
                }
                if pc > 0xffff - 2 {
                    return RunStatus::Fault;
                }
                let data = self.em.rom[pc as usize + 1];
                self.em.ram.write(bank + (opcode - 0x74) as usize, data);
                self.em.reg.pc.set(pc + 2);
            } else if 0x7c <= opcode && opcode <= 0x7f {
                // mov Rn, Rm
                if pc > 0xffff - 1 {
                    return RunStatus::Fault;
                }
                let n = (opcode - 0x7c) / 8;
                let m = (opcode - 0x7c) % 8;
                let m_data = self.em.ram.read(bank + m as usize);
                self.em.ram.write(bank + n as usize, m_data);
                self.em.reg.pc.set(pc + 1);
            } else if 0x84 <= opcode && opcode <= 0x8b {
                // mov A, Rn
                if pc > 0xffff - 1 {
                    return RunStatus::Fault;
                }
                let n_data = self.em.ram.read(bank + (opcode - 0x84) as usize);
                self.em.reg.a.set(n_data);
                self.em.reg.pc.set(pc + 1);
            } else if opcode == 0x8c {
                // mov A, #data
                if pc as usize + 1 >= romlen {
                    return RunStatus::Fault;
                }
                if pc > 0xffff - 2 {
                    return RunStatus::Fault;
                }
                let data = self.em.rom[pc as usize + 1];
                self.em.reg.a.set(data);
                self.em.reg.pc.set(pc + 2);
            } else if 0x8d <= opcode && opcode <= 0x94 {
                // mov Rn, A
                if pc > 0xffff - 1 {
                    return RunStatus::Fault;
                }
                let a = self.em.reg.a.get();
                self.em.ram.write(bank + (opcode - 0x8d) as usize, a);
                self.em.reg.pc.set(pc + 1);
            } else if 0x95 <= opcode && opcode <= 0x9c {
                // mov B, Rn
                if pc > 0xffff - 1 {
                    return RunStatus::Fault;
                }
                let data = self.em.ram.read(bank + (opcode - 0x95) as usize);
                self.em.reg.b.set(data);
                self.em.reg.pc.set(pc + 1);
            } else if opcode == 0x9d {
                // mov B, #data
                if pc as usize + 1 >= romlen {
                    return RunStatus::Fault;
                }
                if pc > 0xffff - 2 {
                    return RunStatus::Fault;
                }
                let data = self.em.rom[pc as usize + 1];
                self.em.reg.b.set(data);
                self.em.reg.pc.set(pc + 2);
            } else if 0x9e <= opcode && opcode <= 0xa5 {
                // mov Rn, B
                if pc > 0xffff - 1 {
                    return RunStatus::Fault;
                }
                let b = self.em.reg.b.get();
                self.em.ram.write(bank + (opcode - 0x9e) as usize, b);
                self.em.reg.pc.set(pc + 1);
            } else if opcode == 0xa6 {
                // mov A, B
                if pc > 0xffff - 1 {
                    return RunStatus::Fault;
                }
                let b = self.em.reg.b.get();
                self.em.reg.a.set(b);
                self.em.reg.pc.set(pc + 1);
            } else if opcode == 0xa7 {
                // mov B, A
                if pc > 0xffff - 1 {
                    return RunStatus::Fault;
                }
                let a = self.em.reg.a.get();
                self.em.reg.b.set(a);
                self.em.reg.pc.set(pc + 1);
            } else if opcode == 0x50 {
                // add A, #data
                if pc as usize + 1 >= romlen {
                    return RunStatus::Fault;
                }
                if pc > 0xffff - 2 {
                    return RunStatus::Fault;
                }
                let data = self.em.rom[pc as usize + 1];
                let a = self.em.reg.a.get();
                let sum = ((a as u16 + data as u16) % 256) as u8;
                self.em.reg.a.set(sum);
                self.em.reg.pc.set(pc + 2);
            } else if opcode == 0x51 {
                // add A, B
                if pc > 0xffff - 1 {
                    return RunStatus::Fault;
                }
                let a = self.em.reg.a.get();
                let b = self.em.reg.b.get();
                let sum = ((a as u16 + b as u16) % 256) as u8;
                self.em.reg.a.set(sum);
                self.em.reg.pc.set(pc + 1);
            } else if 0x52 <= opcode && opcode <= 0x59 {
                // add A, Rn
                if pc > 0xffff - 1 {
                    return RunStatus::Fault;
                }
                let data = self.em.ram.read(bank + (opcode - 0x52) as usize);
                let a = self.em.reg.a.get();
                let sum = ((a as u16 + data as u16) % 256) as u8;
                self.em.reg.a.set(sum);
                self.em.reg.pc.set(pc + 1);
            } else if opcode == 0x5a {
                // add A, A
                if pc > 0xffff - 1 {
                    return RunStatus::Fault;
                }
                let a = self.em.reg.a.get();
                let sum = ((a as u16 + a as u16) % 256) as u8;
                self.em.reg.a.set(sum);
                self.em.reg.pc.set(pc + 1);
            } else if opcode == 0x28 {
                // sjmp rel8
                if pc as usize + 1 >= romlen {
                    return RunStatus::Fault;
                }
                let rel = self.em.rom[pc as usize + 1];
                let ext: u32 = if rel >= 0x80 {
                    0xff00
                } else {
                    0
                };
                let target = ((pc as u32 + 2 + rel as u32 + ext) % 0x10000) as u16;
                proof {
                    if rel >= 0x80 {
                        lemma_mod_multiples_vanish(1, pc + 2 + sign_ext(rel), 0x10000);
                    }
                    assert(target == sjmp_target(head.pc, rel));
                }
                self.em.reg.pc.set(target);
            } else if opcode == 0x29 {
                // ljmp addr16
                if pc as usize + 2 >= romlen {
                    return RunStatus::Fault;
                }
                let hi = self.em.rom[pc as usize + 1];
                let lo = self.em.rom[pc as usize + 2];
                let target = ((hi as u16) << 8) | (lo as u16);
                proof {
                    assert((((hi as u16) << 8) | (lo as u16)) == hi * 256 + lo) by (bit_vector);
                }
                self.em.reg.pc.set(target);
            } else {
                // Unrecognized opcode: tolerant decode, a no-op of width 1.
                if pc > 0xffff - 1 {
                    return RunStatus::Fault;
                }
                self.em.reg.pc.set(pc + 1);
            }
            proof {
                assert(step_spec(head) == StepResult::Next(self.em@)) by {
                    let sr = step_spec(head);
                    assert(sr is Next);
                    assert(sr->Next_0 =~= self.em@);
                }
            }
            remaining -= 1;
        }
    }
}

} // verus!
