//! Valuation methods for internally priced loans.
//!
//! The pricing math itself (outstanding-debt and accrual figures) lives with
//! an external collaborator; the core only needs the classification of a
//! loan's valuation method, which gates which mutations apply to it.

use vstd::prelude::*;

verus! {

/// Parameters of a discounted cash flow valuation.
#[derive(Clone, Copy, Debug, PartialEq, Eq)]
pub struct DiscountedCashFlow<Rate> {
    /// Chance that the debtor defaults before maturity.
    pub probability_of_default: Rate,

    /// Share of the exposure lost if the debtor defaults.
    pub loss_given_default: Rate,

    /// Rate used to discount the expected cash flows to the present.
    pub discount_rate: Rate,
}

/// How an internally priced loan is valued.
#[derive(Clone, Copy, Debug, PartialEq, Eq)]
pub enum ValuationMethod<Rate> {
    /// Value the loan by discounting its expected cash flows.
    DiscountedCashFlow(DiscountedCashFlow<Rate>),

    /// Value the loan by its outstanding debt.
    OutstandingDebt,
}

impl<Rate> ValuationMethod<Rate> {
    /// Whether the method belongs to the discounted cash flow family.
    pub open spec fn spec_is_discounted_cash_flow(self) -> bool {
        self is DiscountedCashFlow
    }

    pub fn is_discounted_cash_flow(&self) -> (r: bool)
        ensures
            r == self.spec_is_discounted_cash_flow(),
    {
        match self {
            ValuationMethod::DiscountedCashFlow(_) => true,
            ValuationMethod::OutstandingDebt => false,
        }
    }
}

} // verus!
