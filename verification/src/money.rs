//! Monetary amounts as signed fixed-point values.
//!
//! Amounts are held in hundredths of the ledger currency. The sign encodes
//! the ledger side of a remainder: debit for non-negative values, credit
//! for negative ones; zero counts as debit-side.

use vstd::prelude::*;

verus! {

/// Largest magnitude, in hundredths, that text input may denote.
pub const PARSE_LIMIT_CENTS: i64 = 10_000_000_000_000_000;

/// Largest magnitude, in hundredths, that a stored amount may carry.
/// Wide enough that a closing remainder built from parsed values fits.
pub const AMOUNT_LIMIT_CENTS: i64 = 100_000_000_000_000_000;

/// A signed monetary amount in hundredths of the ledger currency.
#[derive(Clone, Copy, PartialEq, Eq, Structural, Debug)]
pub struct Money {
    pub cents: i64,
}

impl View for Money {
    type V = int;

    open spec fn view(&self) -> int {
        self.cents as int
    }
}

/// An amount the ledger is willing to store.
pub open spec fn money_wf(v: int) -> bool {
    -AMOUNT_LIMIT_CENTS <= v <= AMOUNT_LIMIT_CENTS
}

/// An amount small enough to have come from parsed text input.
pub open spec fn money_in_input_range(v: int) -> bool {
    -PARSE_LIMIT_CENTS <= v <= PARSE_LIMIT_CENTS
}

impl Money {
    /// Whether the amount sits on the debit side (zero counts as debit).
    pub fn is_debit_side(&self) -> (r: bool)
        ensures
            r == (self@ >= 0),
    {
        self.cents >= 0
    }

    /// The magnitude of the amount.
    pub fn magnitude(&self) -> (r: Money)
        requires
            money_wf(self@),
        ensures
            r@ == if self@ >= 0 { self@ } else { -self@ },
    {
        if self.cents >= 0 {
            Money { cents: self.cents }
        } else {
            Money { cents: -self.cents }
        }
    }
}

/// The closing remainder the persistence gateway derives at write time:
/// a debit-side opening remainder is reduced by the credit turnover,
/// a credit-side one is raised by the debit turnover.
pub open spec fn end_remainder_spec(begin: int, debit: int, credit: int) -> int {
    if begin >= 0 {
        begin - credit
    } else {
        begin + debit
    }
}

/// Computes the closing remainder from the opening remainder and the two
/// turnovers, by the gateway's formula.
pub fn end_remainder(begin: Money, debit: Money, credit: Money) -> (r: Money)
    requires
        money_in_input_range(begin@),
        0 <= debit@ <= PARSE_LIMIT_CENTS,
        0 <= credit@ <= PARSE_LIMIT_CENTS,
    ensures
        r@ == end_remainder_spec(begin@, debit@, credit@),
        money_wf(r@),
{
    if begin.cents >= 0 {
        Money { cents: begin.cents - credit.cents }
    } else {
        Money { cents: begin.cents + debit.cents }
    }
}

} // verus!
