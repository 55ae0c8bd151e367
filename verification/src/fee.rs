//! The fee tiers of Uniswap V3 pools.

use vstd::prelude::*;

verus! {

/// A fee tier, in hundredths of a basis point.
#[derive(Clone, Copy, PartialEq, Eq, Structural, Debug, PartialOrd, Ord, Hash)]
pub enum FeeAmount {
    Lowest,
    Low,
    Medium,
    High,
}

/// The tier of a fee, if it is one.
pub open spec fn fee_tier(v: u32) -> Option<FeeAmount> {
    if v == 100 {
        Some(FeeAmount::Lowest)
    } else if v == 500 {
        Some(FeeAmount::Low)
    } else if v == 3_000 {
        Some(FeeAmount::Medium)
    } else if v == 10_000 {
        Some(FeeAmount::High)
    } else {
        None
    }
}

impl FeeAmount {
    /// The fee of the tier, in millionths.
    pub open spec fn pips(self) -> u32 {
        match self {
            FeeAmount::Lowest => 100,
            FeeAmount::Low => 500,
            FeeAmount::Medium => 3_000,
            FeeAmount::High => 10_000,
        }
    }

    pub fn value(&self) -> (v: u32)
        ensures
            v == self.pips(),
    {
        match self {
            FeeAmount::Lowest => 100,
            FeeAmount::Low => 500,
            FeeAmount::Medium => 3_000,
            FeeAmount::High => 10_000,
        }
    }

    /// The tier of a fee, if it is one.
    pub fn from_repr(v: u32) -> (r: Option<FeeAmount>)
        ensures
            r == fee_tier(v),
    {
        if v == 100 {
            Some(FeeAmount::Lowest)
        } else if v == 500 {
            Some(FeeAmount::Low)
        } else if v == 3_000 {
            Some(FeeAmount::Medium)
        } else if v == 10_000 {
            Some(FeeAmount::High)
        } else {
            None
        }
    }

    /// Every tier, from the lowest fee up.
    pub fn all() -> (r: Vec<FeeAmount>)
        ensures
            r@ == seq![FeeAmount::Lowest, FeeAmount::Low, FeeAmount::Medium, FeeAmount::High],
    {
        vec![FeeAmount::Lowest, FeeAmount::Low, FeeAmount::Medium, FeeAmount::High]
    }

    /// The tier's name.
    pub fn name(&self) -> (s: &'static str)
        ensures
            *self == FeeAmount::Lowest ==> s@ == "Lowest"@,
            *self == FeeAmount::Low ==> s@ == "Low"@,
            *self == FeeAmount::Medium ==> s@ == "Medium"@,
            *self == FeeAmount::High ==> s@ == "High"@,
    {
        match self {
            FeeAmount::Lowest => "Lowest",
            FeeAmount::Low => "Low",
            FeeAmount::Medium => "Medium",
            FeeAmount::High => "High",
        }
    }
}


/// A tier is the tier of its own fee, and the fee tells the tier: no two
/// tiers share a fee.
pub proof fn law_fee_tier_roundtrip(f: FeeAmount, g: FeeAmount)
    ensures
        fee_tier(f.pips()) == Some(f),
        f.pips() == g.pips() ==> f == g,
{
}

/// The tiers listed in order of their fees.
pub proof fn law_tiers_ascend()
    ensures
        FeeAmount::Lowest.pips() < FeeAmount::Low.pips() < FeeAmount::Medium.pips() < FeeAmount::High.pips(),
{
}

} // verus!
