//! Currency units and payment methods.

use vstd::prelude::*;

verus! {

/// The unit an amount is counted in.
#[derive(Clone, Copy, Debug, PartialEq, Eq, Structural, Hash)]
pub enum CurrencyUnit {
    /// Satoshi.
    Sat,
    /// A thousandth of a satoshi.
    Msat,
    /// US dollar cents.
    Usd,
    /// Euro cents.
    Eur,
    /// Any other unit, named by its key-derivation index.
    Custom(u32),
}

impl CurrencyUnit {
    /// The index of the unit in key derivation paths.
    pub open spec fn derivation_index_spec(self) -> u32 {
        match self {
            CurrencyUnit::Sat => 0u32,
            CurrencyUnit::Msat => 1u32,
            CurrencyUnit::Usd => 2u32,
            CurrencyUnit::Eur => 3u32,
            CurrencyUnit::Custom(index) => index,
        }
    }

    /// The index of the unit in key derivation paths.
    pub fn derivation_index(&self) -> (index: u32)
        ensures
            index == self.derivation_index_spec(),
    {
        match self {
            CurrencyUnit::Sat => 0,
            CurrencyUnit::Msat => 1,
            CurrencyUnit::Usd => 2,
            CurrencyUnit::Eur => 3,
            CurrencyUnit::Custom(index) => *index,
        }
    }

    /// Whether amounts of this unit are bitcoin amounts.
    pub open spec fn is_bitcoin_spec(self) -> bool {
        self == CurrencyUnit::Sat || self == CurrencyUnit::Msat
    }

    /// Whether amounts of this unit are bitcoin amounts.
    pub fn is_bitcoin(&self) -> (r: bool)
        ensures
            r == self.is_bitcoin_spec(),
    {
        match self {
            CurrencyUnit::Sat => true,
            CurrencyUnit::Msat => true,
            _ => false,
        }
    }
}

/// How a quote is paid.
#[derive(Clone, Copy, Debug, PartialEq, Eq, Structural, Hash)]
pub enum PaymentMethod {
    /// A BOLT11 Lightning invoice.
    Bolt11,
    /// Any other method, named by a number.
    Custom(u32),
}

} // verus!
