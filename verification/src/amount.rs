use vstd::prelude::*;

verus! {

/// An amount of money in millisatoshis.  A mint issues notes in a finite,
/// configured set of denomination tiers; every operation names one tier.
#[derive(Clone, Copy, Debug, PartialEq, Eq, Structural, Hash)]
pub struct Amount {
    pub msats: u64,
}

impl Amount {
    pub fn from_msats(msats: u64) -> (r: Amount)
        ensures
            r.msats == msats,
    {
        Amount { msats }
    }

    pub fn from_sats(sats: u64) -> (r: Amount)
        requires
            sats * 1000 <= u64::MAX,
        ensures
            r.msats == sats * 1000,
    {
        Amount { msats: sats * 1000 }
    }
}

} // verus!
