//! Schedule and restriction vocabulary, and the mutation model.
//!
//! These are pure value types: their only behavior is a validity predicate.
//! Every tagged union here is meant to stay extensible, so new variants can be
//! appended without renumbering the existing ones.

use vstd::prelude::*;
use crate::valuation::ValuationMethod;

verus! {

/// A point in time, in seconds since the epoch.
pub type Moment = u64;

/// Specify the expected repayment date.
#[derive(Clone, Copy, Debug, PartialEq, Eq)]
pub enum Maturity {
    /// Fixed point in time, in seconds.
    Fixed(Moment),
}

impl Maturity {
    /// The date the maturity points at.
    pub open spec fn spec_date(self) -> Moment {
        match self {
            Maturity::Fixed(moment) => moment,
        }
    }

    /// A maturity is valid while its date lies strictly in the future.
    pub open spec fn spec_is_valid(self, now: Moment) -> bool {
        self.spec_date() > now
    }

    pub fn date(&self) -> (r: Moment)
        ensures
            r == self.spec_date(),
    {
        match self {
            Maturity::Fixed(moment) => *moment,
        }
    }

    pub fn is_valid(&self, now: Moment) -> (r: bool)
        ensures
            r == self.spec_is_valid(now),
    {
        match self {
            Maturity::Fixed(moment) => *moment > now,
        }
    }
}

/// A fixed maturity is valid at `t` exactly when its date is strictly greater
/// than `t`; in particular a maturity equal to the current moment is invalid.
pub proof fn lemma_fixed_maturity_validity(m: Moment, t: Moment)
    ensures
        Maturity::Fixed(m).spec_is_valid(t) == (m > t),
        m == t ==> !Maturity::Fixed(m).spec_is_valid(t),
{
}

/// Interest payment periods.
#[derive(Clone, Copy, Debug, PartialEq, Eq)]
pub enum InterestPayments {
    /// All interest is expected to be paid at the maturity date.
    OnceAtMaturity,
}

/// Specify the paydown schedule of the loan.
#[derive(Clone, Copy, Debug, PartialEq, Eq)]
pub enum PayDownSchedule {
    /// The entire borrowed amount is expected to be paid back at the maturity
    /// date.
    OnceAtMaturity,
}

/// Specify the repayment schedule of the loan.
#[derive(Clone, Copy, Debug, PartialEq, Eq)]
pub struct RepaymentSchedule {
    /// Expected repayment date for the remaining debt.
    pub maturity: Maturity,

    /// Period at which interest is paid.
    pub interest_payments: InterestPayments,

    /// How much of the initially borrowed amount is paid back during interest
    /// payments.
    pub pay_down_schedule: PayDownSchedule,
}

impl RepaymentSchedule {
    /// A schedule is valid exactly when its maturity is.
    pub open spec fn spec_is_valid(self, now: Moment) -> bool {
        self.maturity.spec_is_valid(now)
    }

    pub fn is_valid(&self, now: Moment) -> (r: bool)
        ensures
            r == self.spec_is_valid(now),
    {
        self.maturity.is_valid(now)
    }
}

/// Specify how often a loan can be borrowed against.
#[derive(Clone, Copy, Debug, PartialEq, Eq)]
pub enum BorrowRestrictions {
    /// The loan can not be borrowed against once it has been written off.
    NotWrittenOff,

    /// The full principal must be drawn in a single borrow; no further draws
    /// are permitted afterwards.
    FullOnce,
}

/// Specify how often a loan can be repaid.
#[derive(Clone, Copy, Debug, PartialEq, Eq)]
pub enum RepayRestrictions {
    /// No restrictions.
    Unrestricted,

    /// The loan must be repaid with a single payment of the full outstanding
    /// debt.
    FullOnce,
}

/// The restrictions attached to a loan at creation.
#[derive(Clone, Copy, Debug, PartialEq, Eq)]
pub struct LoanRestrictions {
    /// How often the loan can be borrowed against.
    pub borrows: BorrowRestrictions,

    /// How often the loan can be repaid.
    pub repayments: RepayRestrictions,
}

/// A change to one internal pricing parameter of a loan.
#[derive(Clone, Debug, PartialEq, Eq)]
pub enum InternalMutation<Rate> {
    InterestRate(Rate),
    ValuationMethod(ValuationMethod<Rate>),
    ProbabilityOfDefault(Rate),
    LossGivenDefault(Rate),
    DiscountRate(Rate),
}

/// A change to one of the loan-level terms.
#[derive(Clone, Debug, PartialEq, Eq)]
pub enum LoanMutation<Rate> {
    Maturity(Maturity),
    InterestPayments(InterestPayments),
    PayDownSchedule(PayDownSchedule),
    Internal(InternalMutation<Rate>),
}

/// The envelope binding a mutation to a specific loan: one governance action.
#[derive(Clone, Debug, PartialEq, Eq)]
pub enum Change<LoanId, Rate> {
    Loan(LoanId, LoanMutation<Rate>),
}

impl<LoanId, Rate> Change<LoanId, Rate> {
    /// The loan the change targets, and the mutation to apply to it.
    pub fn into_parts(self) -> (r: (LoanId, LoanMutation<Rate>))
        ensures
            self == Change::Loan(r.0, r.1),
    {
        match self {
            Change::Loan(id, m) => (id, m),
        }
    }
}

} // verus!
