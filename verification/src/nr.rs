//! Interrupt source numbers.

use vstd::prelude::*;
use vstd::std_specs::convert::{FromSpec, FromSpecImpl, TryFromSpec, TryFromSpecImpl};

verus! {

/// The largest number an interrupt source can have.
pub const MAX_SOURCE: u16 = 1023;

/// Whether `v` names an interrupt source: source 0 does not exist, and the
/// controller has room for sources 1 to 1023.
pub open spec fn is_source(v: int) -> bool {
    1 <= v <= MAX_SOURCE
}

/// Interrupt number
///
/// Valid numbers range from 1 to 1023; interrupt source 0 does not exist and
/// stands for "no interrupt" wherever the hardware reports a source.
#[derive(Clone, Copy, PartialEq, Eq, Debug, Hash, Structural)]
pub struct Nr(u16);

/// Why a raw value was not accepted as an interrupt number.
#[derive(Clone, Copy, PartialEq, Eq, Debug, Hash, Structural)]
pub enum NrError {
    /// The value is 0 or greater than 1023.
    InvalidArgument,
}

impl View for Nr {
    type V = nat;

    /// The number of the source.
    closed spec fn view(&self) -> nat {
        self.0 as nat
    }
}

impl Nr {
    #[verifier::type_invariant]
    spec fn in_range(self) -> bool {
        is_source(self.0 as int)
    }

    /// The interrupt number whose view is `v`, for a `v` that names a source.
    pub closed spec fn from_nat(v: nat) -> Nr {
        Nr(v as u16)
    }

    /// What a conversion from the raw value `v` gives.
    pub open spec fn checked(v: int) -> Result<Nr, NrError> {
        if is_source(v) {
            Ok(Nr::from_nat(v as nat))
        } else {
            Err(NrError::InvalidArgument)
        }
    }

    /// Two interrupt numbers with the same view are the same.
    pub proof fn lemma_view_injective(a: Nr, b: Nr)
        requires
            a@ == b@,
        ensures
            a == b,
    {
    }

    /// The number of the source, as the index of its registers.
    #[inline]
    pub fn index(&self) -> (r: u16)
        ensures
            r == self@,
            is_source(r as int),
    {
        proof {
            use_type_invariant(self);
        }
        self.0
    }

    fn from_u32(src: u32) -> (r: Result<Nr, NrError>)
        ensures
            r == Nr::checked(src as int),
            r matches Ok(nr) ==> nr@ == src,
    {
        if 1 <= src && src <= 1023 {
            Ok(Nr(src as u16))
        } else {
            Err(NrError::InvalidArgument)
        }
    }
}

impl TryFrom<u16> for Nr {
    type Error = NrError;

    #[inline]
    fn try_from(src: u16) -> (r: Result<Nr, NrError>)
        ensures
            r matches Ok(nr) ==> nr@ == src,
    {
        Nr::from_u32(src as u32)
    }
}

impl TryFromSpecImpl<u16> for Nr {
    open spec fn obeys_try_from_spec() -> bool {
        true
    }

    open spec fn try_from_spec(src: u16) -> Result<Nr, NrError> {
        Nr::checked(src as int)
    }
}

impl TryFrom<u32> for Nr {
    type Error = NrError;

    #[inline]
    fn try_from(src: u32) -> (r: Result<Nr, NrError>)
        ensures
            r matches Ok(nr) ==> nr@ == src,
    {
        Nr::from_u32(src)
    }
}

impl TryFromSpecImpl<u32> for Nr {
    open spec fn obeys_try_from_spec() -> bool {
        true
    }

    open spec fn try_from_spec(src: u32) -> Result<Nr, NrError> {
        Nr::checked(src as int)
    }
}

impl TryFrom<usize> for Nr {
    type Error = NrError;

    #[inline]
    fn try_from(src: usize) -> (r: Result<Nr, NrError>)
        ensures
            r matches Ok(nr) ==> nr@ == src,
    {
        if src <= 1023 {
            Nr::from_u32(src as u32)
        } else {
            Err(NrError::InvalidArgument)
        }
    }
}

impl TryFromSpecImpl<usize> for Nr {
    open spec fn obeys_try_from_spec() -> bool {
        true
    }

    open spec fn try_from_spec(src: usize) -> Result<Nr, NrError> {
        Nr::checked(src as int)
    }
}

impl From<Nr> for u16 {
    #[inline]
    fn from(src: Nr) -> (r: u16) {
        src.index()
    }
}

impl FromSpecImpl<Nr> for u16 {
    open spec fn obeys_from_spec() -> bool {
        true
    }

    open spec fn from_spec(src: Nr) -> u16 {
        src@ as u16
    }
}

impl From<Nr> for u32 {
    #[inline]
    fn from(src: Nr) -> (r: u32) {
        src.index() as u32
    }
}

impl FromSpecImpl<Nr> for u32 {
    open spec fn obeys_from_spec() -> bool {
        true
    }

    open spec fn from_spec(src: Nr) -> u32 {
        src@ as u32
    }
}

impl From<Nr> for usize {
    #[inline]
    fn from(src: Nr) -> (r: usize) {
        src.index() as usize
    }
}

impl FromSpecImpl<Nr> for usize {
    open spec fn obeys_from_spec() -> bool {
        true
    }

    open spec fn from_spec(src: Nr) -> usize {
        src@ as usize
    }
}

/// Every raw value from 1 to 1023 is accepted, whichever integer type it
/// comes in, and each conversion back to an integer gives that value again.
pub proof fn lemma_round_trip(v: int)
    requires
        is_source(v),
    ensures
        Nr::checked(v) is Ok,
        Nr::checked(v).unwrap()@ == v,
        <Nr as TryFromSpec<u16>>::try_from_spec(v as u16) == Nr::checked(v),
        <Nr as TryFromSpec<u32>>::try_from_spec(v as u32) == Nr::checked(v),
        <Nr as TryFromSpec<usize>>::try_from_spec(v as usize) == Nr::checked(v),
        <u16 as FromSpec<Nr>>::from_spec(Nr::checked(v).unwrap()) == v,
        <u32 as FromSpec<Nr>>::from_spec(Nr::checked(v).unwrap()) == v,
        <usize as FromSpec<Nr>>::from_spec(Nr::checked(v).unwrap()) == v,
{
}

/// The value 0 and every value above 1023 is refused.
pub proof fn lemma_rejected(v: int)
    requires
        !is_source(v),
    ensures
        Nr::checked(v) == Err::<Nr, NrError>(NrError::InvalidArgument),
{
}

} // verus!
