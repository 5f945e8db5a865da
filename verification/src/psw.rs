//! The program status word (PSW): a byte register exposing named flags.

use vstd::prelude::*;
use crate::regs::{bit8_get, bit8_set};

verus! {

/// The named flags of the PSW, from bit 0 (parity) up to bit 7 (carry):
/// parity, user flag 1, overflow, the two register-bank-select bits,
/// user flag 0, auxiliary carry, and carry.
#[derive(Clone, Copy, PartialEq, Eq, Structural, Debug)]
pub enum PswFlag {
    P,
    F1,
    OV,
    RS0,
    RS1,
    F0,
    AC,
    CY,
}

/// The bit position a flag lives at within the PSW byte.
pub open spec fn flag_bit(flag: PswFlag) -> u8 {
    match flag {
        PswFlag::P => 0,
        PswFlag::F1 => 1,
        PswFlag::OV => 2,
        PswFlag::RS0 => 3,
        PswFlag::RS1 => 4,
        PswFlag::F0 => 5,
        PswFlag::AC => 6,
        PswFlag::CY => 7,
    }
}

/// The program status word: an 8-bit register read and written one flag
/// at a time or as a whole byte.
pub struct Psw {
    pub value: u8,
}

impl Psw {
    /// A fresh PSW has every flag clear.
    pub fn new() -> (r: Psw)
        ensures
            r.value == 0,
    {
        Psw { value: 0 }
    }

    /// Force one flag to `value`, leaving the other flags alone.
    pub fn set_flag(&mut self, flag: PswFlag, value: bool)
        ensures
            final(self).value == bit8_set(old(self).value, flag_bit(flag), value),
            forall|other: PswFlag|
                flag_bit(other) != flag_bit(flag) ==> #[trigger] bit8_get(
                    final(self).value,
                    flag_bit(other),
                ) == bit8_get(old(self).value, flag_bit(other)),
            bit8_get(final(self).value, flag_bit(flag)) == value,
    {
        let bit = match flag {
            PswFlag::P => 0u8,
            PswFlag::F1 => 1,
            PswFlag::OV => 2,
            PswFlag::RS0 => 3,
            PswFlag::RS1 => 4,
            PswFlag::F0 => 5,
            PswFlag::AC => 6,
            PswFlag::CY => 7,
        };
        let mask: u8 = 1 << bit;
        if value {
            self.value |= mask;
        } else {
            self.value &= !mask;
        }
        proof {
            assert forall|other: PswFlag| flag_bit(other) != flag_bit(flag) implies #[trigger]
                bit8_get(self.value, flag_bit(other)) == bit8_get(
                old(self).value,
                flag_bit(other),
            ) by {
                crate::regs::lemma_bit8_get_set(
                    old(self).value,
                    flag_bit(flag),
                    flag_bit(other),
                    value,
                );
            }
            crate::regs::lemma_bit8_get_set(old(self).value, flag_bit(flag), flag_bit(flag), value);
        }
    }

    /// Read one flag.
    pub fn get_flag(&self, flag: PswFlag) -> (r: bool)
        ensures
            r == bit8_get(self.value, flag_bit(flag)),
    {
        let bit = match flag {
            PswFlag::P => 0u8,
            PswFlag::F1 => 1,
            PswFlag::OV => 2,
            PswFlag::RS0 => 3,
            PswFlag::RS1 => 4,
            PswFlag::F0 => 5,
            PswFlag::AC => 6,
            PswFlag::CY => 7,
        };
        let mask: u8 = 1 << bit;
        self.value & mask != 0
    }

    /// Overwrite the whole status word.
    pub fn set(&mut self, value: u8)
        ensures
            final(self).value == value,
    {
        self.value = value;
    }

    /// Read the whole status word.
    pub fn get(&self) -> (r: u8)
        ensures
            r == self.value,
    {
        self.value
    }
}

} // verus!
