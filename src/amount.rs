use vstd::prelude::*;

verus! {

/// The largest representable monetary value: 21 million coins of 10^8 units.
pub const MAX_MONEY: u64 = 2_100_000_000_000_000;

/// A non-negative monetary value no larger than `MAX_MONEY`.
#[derive(Clone, Copy, Debug)]
pub struct Amount {
    value: u64,
}

impl Amount {
    #[verifier::type_invariant]
    spec fn in_range(self) -> bool {
        self.value <= MAX_MONEY
    }

    pub fn zero() -> (r: Amount)
        ensures
            r.spec_u64() == 0,
    {
        Amount { value: 0 }
    }

    /// The value held, in base units.
    pub closed spec fn spec_u64(self) -> u64 {
        self.value
    }

    /// Holds `value` if it is at most `MAX_MONEY`.
    pub fn from_u64(value: u64) -> (r: Option<Amount>)
        ensures
            r is Some <==> value <= MAX_MONEY,
            r matches Some(a) ==> a.spec_u64() == value,
    {
        if value <= MAX_MONEY {
            Some(Amount { value })
        } else {
            None
        }
    }

    pub fn into_u64(&self) -> (r: u64)
        ensures
            r == self.spec_u64(),
            r <= MAX_MONEY,
    {
        proof {
            use_type_invariant(self);
        }
        self.value
    }

    /// `self - other`, or `None` where that would be negative.
    pub fn checked_sub(&self, other: &Amount) -> (r: Option<Amount>)
        ensures
            r is Some <==> other.spec_u64() <= self.spec_u64(),
            r matches Some(a) ==> a.spec_u64() == self.spec_u64() - other.spec_u64(),
    {
        proof {
            use_type_invariant(self);
        }
        if other.value <= self.value {
            Some(Amount { value: self.value - other.value })
        } else {
            None
        }
    }
}

} // verus!
