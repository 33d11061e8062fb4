//! Single-precision numbers by their bit pattern. The crate carries them from a
//! configuration to the arithmetic that uses them; all it asks of one is its
//! sign.

use vstd::prelude::*;

verus! {

/// A single-precision number, by its IEEE 754 bit pattern.
#[derive(Debug, Clone, Copy, PartialEq, Eq, Structural)]
pub struct F32 {
    pub bits: u32,
}

/// The bit pattern of `+inf`.
pub const INFINITY_BITS: u32 = 0x7f80_0000;

impl F32 {
    /// Whether the number is greater than zero: the sign bit is clear, and it is
    /// neither zero nor not-a-number.
    pub open spec fn positive(self) -> bool {
        0 < self.bits <= INFINITY_BITS
    }

    /// Whether the number is greater than zero.
    pub fn is_positive(self) -> (r: bool)
        ensures
            r == self.positive(),
    {
        0 < self.bits && self.bits <= INFINITY_BITS
    }
}

/// A number is greater than zero exactly where its sign bit is clear and it is neither
/// zero, which has neither exponent nor fraction, nor not-a-number, which has the highest
/// exponent and a fraction.
pub proof fn law_which_numbers_are_positive(f: F32)
    ensures
        ({
            let sign = f.bits as int / 0x8000_0000;
            let exponent = (f.bits as int / 0x80_0000) % 256;
            let fraction = f.bits as int % 0x80_0000;
            f.positive() <==> sign == 0 && !(exponent == 0 && fraction == 0) && !(exponent == 255
                && fraction != 0)
        }),
{
}

} // verus!
