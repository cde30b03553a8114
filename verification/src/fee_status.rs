//! The fee bookkeeping snapshot: market cap, total value secured and the
//! resolution fee percentage.

use vstd::prelude::*;

use crate::Contract;

verus! {

/// A fee snapshot.
#[derive(Clone, Copy, PartialEq, Eq, Structural, Debug)]
pub struct FeeStatus {
    pub market_cap: u128,
    pub total_value_secured: u128,
    /// Denominated so that one hundred thousand is one hundred percent.
    pub fee_percentage: u16,
}

impl FeeStatus {
    /// A fresh snapshot: nothing secured yet, the lowest possible fee.
    pub fn new() -> (r: Self)
        ensures
            r.market_cap == 0,
            r.total_value_secured == 0,
            r.fee_percentage == 1,
    {
        FeeStatus { market_cap: 0, total_value_secured: 0, fee_percentage: 1 }
    }
}

impl Contract {
    /// The total value the whitelisted requesters secure. Gathering it from
    /// the requesters themselves is outward work; nothing is summed yet, so
    /// this reports zero.
    pub fn fetch_tvs(&self) -> (r: u128)
        ensures
            r == 0,
    {
        let total_tvs: u128 = 0;
        total_tvs
    }
}

} // verus!
