//! Per-operation error taxonomies.
//!
//! Each enumeration is the closed set of reasons an operation in its family
//! can be rejected. There is deliberately no catch-all variant: every
//! rejection is a specific, stable, replayable cause. New variants may be
//! appended, but existing ones must never be renumbered or removed, since
//! they are part of the persisted audit trail.

use vstd::prelude::*;

verus! {

/// Error related to loan creation.
#[derive(Clone, Copy, Debug, PartialEq, Eq)]
pub enum CreateLoanError {
    /// The valuation method is incorrectly specified.
    InvalidValuationMethod,
    /// The repayment schedule is incorrectly specified.
    InvalidRepaymentSchedule,
    /// A borrow restriction is incorrect.
    InvalidBorrowRestriction,
    /// A repay restriction is incorrect.
    InvalidRepayRestriction,
}

/// Error related to borrowing against a loan.
#[derive(Clone, Copy, Debug, PartialEq, Eq)]
pub enum BorrowLoanError {
    /// The borrowed amount is more than the allowed amount.
    MaxAmountExceeded,
    /// The loan can not be borrowed against because of a restriction.
    Restriction,
    /// The maturity date has passed.
    MaturityDatePassed,
}

/// Error related to repaying a loan.
#[derive(Clone, Copy, Debug, PartialEq, Eq)]
pub enum RepayLoanError {
    /// The loan can not be repaid because of a restriction.
    Restriction,
}

/// Error related to writing off a loan.
#[derive(Clone, Copy, Debug, PartialEq, Eq)]
pub enum WrittenOffError {
    /// A write-off tried to apply less than the policy mandates.
    LessThanPolicy,
}

/// Error related to closing a loan.
#[derive(Clone, Copy, Debug, PartialEq, Eq)]
pub enum CloseLoanError {
    /// The loan is not fully repaid.
    NotFullyRepaid,
}

/// Error related to loan mutations.
#[derive(Clone, Copy, Debug, PartialEq, Eq)]
pub enum MutationError {
    /// The mutation expects the loan to be valued by discounted cash flow.
    DiscountedCashFlowExpected,
    /// The mutation expects the loan to carry an internal pricing.
    InternalPricingExpected,
}

} // verus!
