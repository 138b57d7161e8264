//! Priority levels.

use vstd::arithmetic::power2::{lemma2_to64, lemma_pow2_strictly_increases, pow2};
use vstd::bits::{lemma_u32_pow2_no_overflow, lemma_u32_shl_is_mul};
use vstd::prelude::*;

verus! {

/// Width of a priority or threshold register, in bits.
pub const REGISTER_BITS: usize = 32;

/// The highest priority that a controller with `width` priority bits knows:
/// `2^width - 1`, or the largest register value once the width reaches that
/// of the register.
pub open spec fn highest_level(width: nat) -> nat {
    if width >= REGISTER_BITS {
        u32::MAX as nat
    } else {
        (pow2(width) - 1) as nat
    }
}

/// Whether the register value `bits` is a priority level of a controller with
/// `width` priority bits.
pub open spec fn is_level(width: nat, bits: int) -> bool {
    0 <= bits <= highest_level(width)
}

/// Priority of an interrupt
///
/// Type parameter B means how many bits are supported in target implementation.
/// For example if B = 3, highest priority would be 7 or 2^3 - 1, lowest would be 1.
/// Priorities order as their levels do: the higher level preempts the lower.
#[derive(Clone, Copy, PartialEq, Eq, Debug, Hash)]
pub struct Priority<const B: usize>(u32);

impl<const B: usize> View for Priority<B> {
    type V = nat;

    /// The level of the priority.
    closed spec fn view(&self) -> nat {
        self.0 as nat
    }
}

impl<const B: usize> Priority<B> {
    #[verifier::type_invariant]
    spec fn in_range(self) -> bool {
        is_level(B as nat, self.0 as int)
    }

    /// The priority of the level `level`, for a `level` of the width `B`.
    pub closed spec fn of_level(level: nat) -> Priority<B> {
        Priority(level as u32)
    }

    /// What decoding the register value `bits` gives: its priority where it
    /// is a level of the width `B`, and none where it is above the highest.
    pub open spec fn decoded(bits: u32) -> Option<Priority<B>> {
        if is_level(B as nat, bits as int) {
            Some(Self::of_level(bits as nat))
        } else {
            None
        }
    }

    /// With fewer priority bits than the register is wide, the register
    /// value `(1 << B) - 1` decodes, to the highest priority, and the register
    /// value `1 << B` does not decode.
    pub proof fn lemma_decoding()
        requires
            B < REGISTER_BITS,
        ensures
            highest_level(B as nat) == (1u32 << (B as u32)) - 1,
            Self::decoded(((1u32 << (B as u32)) - 1) as u32) == Some(
                Self::of_level(highest_level(B as nat)),
            ),
            Self::of_level(highest_level(B as nat))@ == (1u32 << (B as u32)) - 1,
            Self::decoded(1u32 << (B as u32)) is None,
    {
        lemma_u32_pow2_no_overflow(B as nat);
        lemma_u32_shl_is_mul(1u32, B as u32);
        lemma_highest_level(B as nat);
    }

    /// Two priorities of the same level are the same.
    pub proof fn lemma_view_injective(a: Priority<B>, b: Priority<B>)
        requires
            a@ == b@,
        ensures
            a == b,
    {
    }

    /// Priority 0 means never interrupt
    #[inline]
    pub fn never() -> (r: Priority<B>)
        ensures
            r@ == 0,
    {
        Priority(0)
    }

    /// Returns the lowest active priority, or priority 1.
    #[inline]
    pub fn lowest() -> (r: Priority<B>)
        requires
            B >= 1,
        ensures
            r@ == 1,
    {
        proof {
            lemma_highest_level(B as nat);
        }
        Priority(1)
    }

    /// Returns the highest active priority, or priority 2^B - 1.
    #[inline]
    pub fn highest() -> (r: Priority<B>)
        ensures
            r == Self::of_level(highest_level(B as nat)),
            r@ == highest_level(B as nat),
    {
        Priority(Self::highest_bits())
    }

    /// The register value of the highest priority.
    fn highest_bits() -> (r: u32)
        ensures
            r == highest_level(B as nat),
    {
        if B >= REGISTER_BITS {
            u32::MAX
        } else {
            let shift: u32 = B as u32;
            proof {
                lemma_u32_pow2_no_overflow(B as nat);
                lemma_u32_shl_is_mul(1u32, shift);
            }
            (1u32 << shift) - 1
        }
    }

    /// The register value that holds this priority.
    #[inline]
    pub fn into_bits(self) -> (r: u32)
        ensures
            r == self@,
            is_level(B as nat, r as int),
    {
        proof {
            use_type_invariant(self);
        }
        self.0
    }

    /// Decodes a register value that is known to hold a priority level.
    ///
    /// A value above the highest level means that the controller has more
    /// priority bits than `B`; such a value is not accepted here, see
    /// [`Priority::try_from_bits`].
    #[inline]
    pub fn from_bits(prio: u32) -> (r: Priority<B>)
        requires
            is_level(B as nat, prio as int),
        ensures
            Self::decoded(prio) == Some(r),
            r@ == prio,
    {
        Priority(prio)
    }

    /// Decodes a register value, or gives `None` where it is above the
    /// highest level of a controller with `B` priority bits.
    pub fn try_from_bits(prio: u32) -> (r: Option<Priority<B>>)
        ensures
            r == Self::decoded(prio),
            r matches Some(p) ==> p@ == prio,
    {
        if prio <= Self::highest_bits() {
            Some(Priority(prio))
        } else {
            None
        }
    }
}

/// With fewer priority bits than the register is wide, the highest level is
/// `2^width - 1`: that value is a level, and `2^width` is none. With at least
/// one bit, 1 is a level.
pub proof fn lemma_highest_level(width: nat)
    ensures
        width < REGISTER_BITS ==> highest_level(width) == pow2(width) - 1,
        width < REGISTER_BITS ==> is_level(width, pow2(width) - 1),
        width < REGISTER_BITS ==> !is_level(width, pow2(width) as int),
        width >= 1 ==> is_level(width, 1),
        is_level(width, 0),
        highest_level(width) <= u32::MAX,
{
    if width < REGISTER_BITS {
        lemma_u32_pow2_no_overflow(width);
        if width >= 1 {
            lemma2_to64();
            if width > 1 {
                lemma_pow2_strictly_increases(1, width);
            }
        }
    }
}

/// The highest levels of the widths from 1 to 8.
pub proof fn lemma_highest_levels_to_8()
    ensures
        highest_level(1) == 1,
        highest_level(2) == 3,
        highest_level(3) == 7,
        highest_level(4) == 15,
        highest_level(5) == 31,
        highest_level(6) == 63,
        highest_level(7) == 127,
        highest_level(8) == 255,
{
    lemma2_to64();
}

} // verus!
