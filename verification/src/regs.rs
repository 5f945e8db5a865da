//! Fixed-width machine registers with bit-level access.

use vstd::prelude::*;

verus! {

/// The value of `v` with bit `bit` forced to `on`.
pub open spec fn bit8_set(v: u8, bit: u8, on: bool) -> u8 {
    if on {
        v | (1u8 << bit)
    } else {
        v & !(1u8 << bit)
    }
}

/// Whether bit `bit` of `v` is set.
pub open spec fn bit8_get(v: u8, bit: u8) -> bool {
    v & (1u8 << bit) != 0
}

/// The value of `v` with bit `bit` forced to `on`.
pub open spec fn bit16_set(v: u16, bit: u8, on: bool) -> u16 {
    if on {
        v | (1u16 << bit)
    } else {
        v & !(1u16 << bit)
    }
}

/// Whether bit `bit` of `v` is set.
pub open spec fn bit16_get(v: u16, bit: u8) -> bool {
    v & (1u16 << bit) != 0
}

/// Setting one bit leaves every other bit alone: reading bit `j` after
/// forcing bit `i` yields `on` when `j == i` and the old bit otherwise.
pub proof fn lemma_bit8_get_set(v: u8, i: u8, j: u8, on: bool)
    requires
        i < 8,
        j < 8,
    ensures
        bit8_get(bit8_set(v, i, on), j) == if i == j {
            on
        } else {
            bit8_get(v, j)
        },
{
    assert(i < 8 && j < 8 ==> ((v | (1u8 << i)) & (1u8 << j) != 0) == if i == j {
        true
    } else {
        v & (1u8 << j) != 0
    }) by (bit_vector);
    assert(i < 8 && j < 8 ==> ((v & !(1u8 << i)) & (1u8 << j) != 0) == if i == j {
        false
    } else {
        v & (1u8 << j) != 0
    }) by (bit_vector);
}

/// Setting one bit leaves every other bit alone (16-bit form).
pub proof fn lemma_bit16_get_set(v: u16, i: u8, j: u8, on: bool)
    requires
        i < 16,
        j < 16,
    ensures
        bit16_get(bit16_set(v, i, on), j) == if i == j {
            on
        } else {
            bit16_get(v, j)
        },
{
    assert(i < 16 && j < 16 ==> ((v | (1u16 << i)) & (1u16 << j) != 0) == if i == j {
        true
    } else {
        v & (1u16 << j) != 0
    }) by (bit_vector);
    assert(i < 16 && j < 16 ==> ((v & !(1u16 << i)) & (1u16 << j) != 0) == if i == j {
        false
    } else {
        v & (1u16 << j) != 0
    }) by (bit_vector);
}

/// An 8-bit register.
pub struct Register8 {
    pub value: u8,
}

impl Register8 {
    /// A fresh register holds zero.
    pub fn new() -> (r: Register8)
        ensures
            r.value == 0,
    {
        Register8 { value: 0 }
    }

    /// Force bit `bit` of the register to `value`.
    pub fn set_bit(&mut self, bit: u8, value: bool)
        requires
            bit < 8,
        ensures
            final(self).value == bit8_set(old(self).value, bit, value),
    {
        let mask: u8 = 1 << bit;
        if value {
            self.value |= mask;
        } else {
            self.value &= !mask;
        }
    }

    /// Read bit `bit` of the register.
    pub fn get_bit(&self, bit: u8) -> (r: bool)
        requires
            bit < 8,
        ensures
            r == bit8_get(self.value, bit),
    {
        let mask: u8 = 1 << bit;
        self.value & mask != 0
    }

    /// Overwrite the whole register.
    pub fn set(&mut self, value: u8)
        ensures
            final(self).value == value,
    {
        self.value = value;
    }

    /// Read the whole register.
    pub fn get(&self) -> (r: u8)
        ensures
            r == self.value,
    {
        self.value
    }
}

/// A 16-bit register.
pub struct Register16 {
    pub value: u16,
}

impl Register16 {
    /// A fresh register holds zero.
    pub fn new() -> (r: Register16)
        ensures
            r.value == 0,
    {
        Register16 { value: 0 }
    }

    /// Force bit `bit` of the register to `value`.
    pub fn set_bit(&mut self, bit: u8, value: bool)
        requires
            bit < 16,
        ensures
            final(self).value == bit16_set(old(self).value, bit, value),
    {
        let mask: u16 = 1 << bit;
        if value {
            self.value |= mask;
        } else {
            self.value &= !mask;
        }
    }

    /// Read bit `bit` of the register.
    pub fn get_bit(&self, bit: u8) -> (r: bool)
        requires
            bit < 16,
        ensures
            r == bit16_get(self.value, bit),
    {
        let mask: u16 = 1 << bit;
        self.value & mask != 0
    }

    /// Overwrite the whole register.
    pub fn set(&mut self, value: u16)
        ensures
            final(self).value == value,
    {
        self.value = value;
    }

    /// Read the whole register.
    pub fn get(&self) -> (r: u16)
        ensures
            r == self.value,
    {
        self.value
    }
}

} // verus!
