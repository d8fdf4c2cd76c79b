//! Wrap widths.
//!
//! A width reaches the library as the bit pattern of an IEEE 754 double
//! (`f64::to_bits`). Among non-negative finite doubles the bit patterns are
//! ordered as the numbers are, so a validated width can be stored, compared
//! and handed back without any floating-point arithmetic.

use vstd::prelude::*;
use crate::error::Error;

verus! {

/// Bit pattern of positive infinity. Every non-negative finite double has a
/// smaller pattern; every larger pattern with a clear sign bit is a NaN.
pub const INFINITY_BITS: u64 = 0x7FF0_0000_0000_0000;

/// Bit pattern of negative zero: the sign bit alone.
pub const NEGATIVE_ZERO_BITS: u64 = 0x8000_0000_0000_0000;

/// The width that lines are wrapped to.
#[derive(Clone, Copy, Debug, PartialEq, Eq, Structural)]
pub enum WrapWidth {
    /// No limit: lines break only where the text says so.
    Unconstrained,
    /// A finite, non-negative width, as the bits of a double.
    Constrained(u64),
}

/// The width that a caller's request stands for, or the reason it is refused.
///
/// No request and positive infinity both mean no limit. Negative zero is
/// zero. Any other pattern with the sign bit set is negative or a NaN, and
/// any pattern above infinity is a NaN: those are refused.
pub open spec fn width_of_bits(request: Option<u64>) -> Result<WrapWidth, Error> {
    match request {
        None => Ok(WrapWidth::Unconstrained),
        Some(bits) => if bits < INFINITY_BITS {
            Ok(WrapWidth::Constrained(bits))
        } else if bits == INFINITY_BITS {
            Ok(WrapWidth::Unconstrained)
        } else if bits == NEGATIVE_ZERO_BITS {
            Ok(WrapWidth::Constrained(0))
        } else {
            Err(Error::InvalidWidth)
        },
    }
}

impl WrapWidth {
    /// A constrained width holds a finite, non-negative double.
    pub open spec fn wf(self) -> bool {
        match self {
            WrapWidth::Unconstrained => true,
            WrapWidth::Constrained(bits) => bits < INFINITY_BITS,
        }
    }

    /// The double that this width stands for, as bits.
    pub open spec fn bits(self) -> u64 {
        match self {
            WrapWidth::Unconstrained => INFINITY_BITS,
            WrapWidth::Constrained(bits) => bits,
        }
    }

    /// Validates a requested width.
    pub fn from_bits(request: Option<u64>) -> (r: Result<WrapWidth, Error>)
        ensures
            r == width_of_bits(request),
            r matches Ok(w) ==> w.wf(),
    {
        match request {
            None => Ok(WrapWidth::Unconstrained),
            Some(bits) => {
                if bits < INFINITY_BITS {
                    Ok(WrapWidth::Constrained(bits))
                } else if bits == INFINITY_BITS {
                    Ok(WrapWidth::Unconstrained)
                } else if bits == NEGATIVE_ZERO_BITS {
                    Ok(WrapWidth::Constrained(0))
                } else {
                    Err(Error::InvalidWidth)
                }
            },
        }
    }

    /// The bits of the double to hand to the shaper: infinity where there is
    /// no limit.
    pub fn to_bits(self) -> (b: u64)
        ensures
            b == self.bits(),
    {
        match self {
            WrapWidth::Unconstrained => INFINITY_BITS,
            WrapWidth::Constrained(bits) => bits,
        }
    }
}

/// A validated width survives the trip through its bits.
pub proof fn lemma_width_bits_round_trip(w: WrapWidth)
    requires
        w.wf(),
    ensures
        width_of_bits(Some(w.bits())) == Ok::<WrapWidth, Error>(w),
{
}

/// Two validated widths with the same bits are the same width.
pub proof fn lemma_width_bits_injective(a: WrapWidth, b: WrapWidth)
    requires
        a.wf(),
        b.wf(),
        a.bits() == b.bits(),
    ensures
        a == b,
{
}

} // verus!
