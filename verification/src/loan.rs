//! The loan state and the restriction enforcement engine.
//!
//! A [`Loan`] is the snapshot of one loan between operations: its fixed terms
//! and a summary of its borrow, repay and write-off history. Every operation
//! is a pure state transition: it takes the snapshot, decides against the
//! restriction configuration and the current time, and either updates the
//! snapshot or returns the specific rejection reason. Policy figures that an
//! external collaborator computes (the maximum borrowable amount, the minimum
//! write-off percentage) are taken as parameters.

use vstd::prelude::*;
use crate::types::{Moment, RepaymentSchedule, LoanRestrictions, BorrowRestrictions,
    RepayRestrictions, LoanMutation, InternalMutation};
use crate::valuation::{ValuationMethod, DiscountedCashFlow};
use crate::errors::{CreateLoanError, BorrowLoanError, RepayLoanError, WrittenOffError,
    CloseLoanError, MutationError};

verus! {

/// Internal pricing terms of a loan.
#[derive(Clone, Copy, Debug, PartialEq, Eq)]
pub struct InternalPricing<Rate> {
    /// Interest rate charged on the outstanding debt.
    pub interest_rate: Rate,

    /// How the loan is valued.
    pub valuation_method: ValuationMethod<Rate>,
}

/// How a loan is priced: internally, from its own terms, or by an external
/// oracle.
#[derive(Clone, Copy, Debug, PartialEq, Eq)]
pub enum Pricing<Rate> {
    /// Priced from the loan's own terms and valuation method.
    Internal(InternalPricing<Rate>),

    /// Priced by an external collaborator; no internal parameters to mutate.
    External,
}

/// Snapshot of one loan between operations.
#[derive(Clone, Copy, Debug, PartialEq, Eq)]
pub struct Loan<Rate> {
    /// The repayment schedule fixed at creation.
    pub schedule: RepaymentSchedule,

    /// The restrictions fixed at creation.
    pub restrictions: LoanRestrictions,

    /// How the loan is priced.
    pub pricing: Pricing<Rate>,

    /// The principal of the loan.
    pub principal: u128,

    /// Total amount drawn so far.
    pub total_borrowed: u128,

    /// Whether any draw has succeeded; distinguishes a loan that has never
    /// been borrowed against from one whose successful draws total zero.
    pub has_drawn: bool,

    /// Total amount repaid so far.
    pub total_repaid: u128,

    /// The write-off percentage currently applied; zero while the loan has
    /// never been written off.
    pub write_off_percentage: u128,
}

impl<Rate> Loan<Rate> {
    /// Well-formedness: no more has been repaid than was ever drawn.
    pub open spec fn wf(self) -> bool {
        self.total_repaid <= self.total_borrowed
    }

    /// The principal debt still outstanding.
    pub open spec fn spec_outstanding(self) -> int {
        self.total_borrowed - self.total_repaid
    }

    /// Whether the loan carries an internal pricing.
    pub open spec fn spec_is_internally_priced(self) -> bool {
        self.pricing is Internal
    }

    /// The loan's interest rate, if it carries an internal pricing.
    pub open spec fn spec_interest_rate(self) -> Option<Rate> {
        match self.pricing {
            Pricing::Internal(ip) => Some(ip.interest_rate),
            Pricing::External => None,
        }
    }

    /// Whether a borrow of `amount` violates the borrow restriction:
    /// under `NotWrittenOff` any write-off forbids further draws; under
    /// `FullOnce` only a first draw of exactly the principal is allowed.
    pub open spec fn spec_borrow_restricted(self, amount: u128) -> bool {
        match self.restrictions.borrows {
            BorrowRestrictions::NotWrittenOff => self.write_off_percentage != 0,
            BorrowRestrictions::FullOnce => !(!self.has_drawn
                && amount == self.principal),
        }
    }

    /// The borrow decision: restriction first, then schedule validity, then
    /// the externally supplied borrow limit.
    pub open spec fn spec_borrow_decision(
        self,
        amount: u128,
        max_borrow_amount: u128,
        now: Moment,
    ) -> Result<(), BorrowLoanError> {
        if self.spec_borrow_restricted(amount) {
            Err(BorrowLoanError::Restriction)
        } else if !self.schedule.spec_is_valid(now) {
            Err(BorrowLoanError::MaturityDatePassed)
        } else if amount > max_borrow_amount {
            Err(BorrowLoanError::MaxAmountExceeded)
        } else {
            Ok(())
        }
    }

    /// The repay decision: unrestricted repayments always pass; `FullOnce`
    /// passes exactly when the amount equals the full outstanding debt.
    pub open spec fn spec_repay_decision(self, amount: u128) -> Result<(), RepayLoanError> {
        match self.restrictions.repayments {
            RepayRestrictions::Unrestricted => Ok(()),
            RepayRestrictions::FullOnce => if amount == self.spec_outstanding() {
                Ok(())
            } else {
                Err(RepayLoanError::Restriction)
            },
        }
    }

    /// Total repaid after a successful repayment of `amount`: the applied
    /// amount is capped at the outstanding debt.
    pub open spec fn spec_repaid_after(self, amount: u128) -> int {
        if amount <= self.spec_outstanding() {
            self.total_repaid + amount
        } else {
            self.total_borrowed as int
        }
    }

    /// The outcome of applying one mutation: either the mutated loan, with
    /// exactly one field of its schedule or pricing replaced, or the reason
    /// the mutation does not apply to this loan.
    pub open spec fn spec_mutated(self, m: LoanMutation<Rate>) -> Result<Loan<Rate>, MutationError> {
        match m {
            LoanMutation::Maturity(maturity) => Ok(Loan {
                schedule: RepaymentSchedule { maturity, ..self.schedule },
                ..self
            }),
            LoanMutation::InterestPayments(interest_payments) => Ok(Loan {
                schedule: RepaymentSchedule { interest_payments, ..self.schedule },
                ..self
            }),
            LoanMutation::PayDownSchedule(pay_down_schedule) => Ok(Loan {
                schedule: RepaymentSchedule { pay_down_schedule, ..self.schedule },
                ..self
            }),
            LoanMutation::Internal(im) => self.spec_internally_mutated(im),
        }
    }

    /// The outcome of applying one internal pricing mutation.
    pub open spec fn spec_internally_mutated(
        self,
        im: InternalMutation<Rate>,
    ) -> Result<Loan<Rate>, MutationError> {
        match self.pricing {
            Pricing::External => Err(MutationError::InternalPricingExpected),
            Pricing::Internal(ip) => match im {
                InternalMutation::InterestRate(rate) => Ok(Loan {
                    pricing: Pricing::Internal(InternalPricing { interest_rate: rate, ..ip }),
                    ..self
                }),
                InternalMutation::ValuationMethod(vm) => Ok(Loan {
                    pricing: Pricing::Internal(InternalPricing { valuation_method: vm, ..ip }),
                    ..self
                }),
                InternalMutation::ProbabilityOfDefault(rate) => match ip.valuation_method {
                    ValuationMethod::DiscountedCashFlow(dcf) => Ok(Loan {
                        pricing: Pricing::Internal(InternalPricing {
                            valuation_method: ValuationMethod::DiscountedCashFlow(
                                DiscountedCashFlow { probability_of_default: rate, ..dcf }),
                            ..ip
                        }),
                        ..self
                    }),
                    ValuationMethod::OutstandingDebt =>
                        Err(MutationError::DiscountedCashFlowExpected),
                },
                InternalMutation::LossGivenDefault(rate) => match ip.valuation_method {
                    ValuationMethod::DiscountedCashFlow(dcf) => Ok(Loan {
                        pricing: Pricing::Internal(InternalPricing {
                            valuation_method: ValuationMethod::DiscountedCashFlow(
                                DiscountedCashFlow { loss_given_default: rate, ..dcf }),
                            ..ip
                        }),
                        ..self
                    }),
                    ValuationMethod::OutstandingDebt =>
                        Err(MutationError::DiscountedCashFlowExpected),
                },
                InternalMutation::DiscountRate(rate) => match ip.valuation_method {
                    ValuationMethod::DiscountedCashFlow(dcf) => Ok(Loan {
                        pricing: Pricing::Internal(InternalPricing {
                            valuation_method: ValuationMethod::DiscountedCashFlow(
                                DiscountedCashFlow { discount_rate: rate, ..dcf }),
                            ..ip
                        }),
                        ..self
                    }),
                    ValuationMethod::OutstandingDebt =>
                        Err(MutationError::DiscountedCashFlowExpected),
                },
            },
        }
    }

    /// Create a loan. The schedule must still be valid at `now`; restrictions
    /// and pricing are attached as given, and the history starts empty.
    pub fn create(
        schedule: RepaymentSchedule,
        restrictions: LoanRestrictions,
        pricing: Pricing<Rate>,
        principal: u128,
        now: Moment,
    ) -> (r: Result<Loan<Rate>, CreateLoanError>)
        ensures
            r is Ok <==> schedule.spec_is_valid(now),
            (r matches Ok(loan) ==> loan == (Loan {
                schedule,
                restrictions,
                pricing,
                principal,
                total_borrowed: 0u128,
                has_drawn: false,
                total_repaid: 0u128,
                write_off_percentage: 0u128,
            })),
            (r matches Ok(loan) ==> loan.wf()),
            r is Err ==> r == Err::<Loan<Rate>, CreateLoanError>(
                CreateLoanError::InvalidRepaymentSchedule),
    {
        if schedule.is_valid(now) {
            Ok(Loan {
                schedule,
                restrictions,
                pricing,
                principal,
                total_borrowed: 0,
                has_drawn: false,
                total_repaid: 0,
                write_off_percentage: 0,
            })
        } else {
            Err(CreateLoanError::InvalidRepaymentSchedule)
        }
    }

    /// The principal debt still outstanding.
    pub fn outstanding_debt(&self) -> (r: u128)
        requires
            self.wf(),
        ensures
            r == self.spec_outstanding(),
    {
        self.total_borrowed - self.total_repaid
    }

    /// Borrow `amount` against the loan at time `now`, under the externally
    /// supplied borrow limit `max_borrow_amount`.
    pub fn borrow(&mut self, amount: u128, max_borrow_amount: u128, now: Moment)
        -> (r: Result<(), BorrowLoanError>)
        requires
            old(self).wf(),
            old(self).spec_borrow_decision(amount, max_borrow_amount, now) is Ok
                ==> old(self).total_borrowed + amount <= u128::MAX,
        ensures
            final(self).wf(),
            r == old(self).spec_borrow_decision(amount, max_borrow_amount, now),
            (r is Ok ==> *final(self) == (Loan {
                total_borrowed: (old(self).total_borrowed + amount) as u128,
                has_drawn: true,
                ..*old(self)
            })),
            r is Err ==> *final(self) == *old(self),
    {
        let restricted: bool = match self.restrictions.borrows {
            BorrowRestrictions::NotWrittenOff => self.write_off_percentage != 0,
            BorrowRestrictions::FullOnce => !(!self.has_drawn
                && amount == self.principal),
        };
        if restricted {
            return Err(BorrowLoanError::Restriction);
        }
        if !self.schedule.is_valid(now) {
            return Err(BorrowLoanError::MaturityDatePassed);
        }
        if amount > max_borrow_amount {
            return Err(BorrowLoanError::MaxAmountExceeded);
        }
        self.total_borrowed = self.total_borrowed + amount;
        self.has_drawn = true;
        Ok(())
    }

    /// Repay `amount` at time `now`. The applied amount is capped at the
    /// outstanding debt; under `FullOnce` the requested amount must equal the
    /// outstanding debt exactly. The decision does not depend on the time;
    /// the parameter stays for the shape of the operation interface.
    pub fn repay(&mut self, amount: u128, now: Moment) -> (r: Result<(), RepayLoanError>)
        requires
            old(self).wf(),
        ensures
            final(self).wf(),
            r == old(self).spec_repay_decision(amount),
            (r is Ok ==> *final(self) == (Loan {
                total_repaid: old(self).spec_repaid_after(amount) as u128,
                ..*old(self)
            })),
            r is Err ==> *final(self) == *old(self),
    {
        let _ = now;
        let outstanding: u128 = self.total_borrowed - self.total_repaid;
        match self.restrictions.repayments {
            RepayRestrictions::Unrestricted => {
                let applied: u128 = if amount <= outstanding { amount } else { outstanding };
                self.total_repaid = self.total_repaid + applied;
                Ok(())
            },
            RepayRestrictions::FullOnce => {
                if amount == outstanding {
                    self.total_repaid = self.total_repaid + amount;
                    Ok(())
                } else {
                    Err(RepayLoanError::Restriction)
                }
            },
        }
    }

    /// Write off `percentage` of the loan. The externally supplied policy
    /// minimum `policy_min` must not be undercut.
    pub fn write_off(&mut self, percentage: u128, policy_min: u128)
        -> (r: Result<(), WrittenOffError>)
        requires
            old(self).wf(),
        ensures
            final(self).wf(),
            r is Ok <==> percentage >= policy_min,
            (r is Ok ==> *final(self) == (Loan {
                write_off_percentage: percentage,
                ..*old(self)
            })),
            r is Err ==> r == Err::<(), WrittenOffError>(WrittenOffError::LessThanPolicy)
                && *final(self) == *old(self),
    {
        if percentage >= policy_min {
            self.write_off_percentage = percentage;
            Ok(())
        } else {
            Err(WrittenOffError::LessThanPolicy)
        }
    }

    /// Close the loan at time `now`: allowed exactly when nothing is
    /// outstanding, down to the smallest representable unit. The decision
    /// does not depend on the time; the parameter stays for the shape of the
    /// operation interface.
    pub fn close(&self, now: Moment) -> (r: Result<(), CloseLoanError>)
        requires
            self.wf(),
        ensures
            r is Ok <==> self.spec_outstanding() == 0,
            r is Err ==> r == Err::<(), CloseLoanError>(CloseLoanError::NotFullyRepaid),
    {
        let _ = now;
        if self.total_borrowed - self.total_repaid == 0 {
            Ok(())
        } else {
            Err(CloseLoanError::NotFullyRepaid)
        }
    }

    /// Apply one mutation to the loan. On success exactly one field of the
    /// schedule or the pricing is replaced; restrictions and history are
    /// never touched. On failure the loan is unchanged.
    pub fn mutate(&mut self, m: LoanMutation<Rate>) -> (r: Result<(), MutationError>)
        ensures
            (match old(self).spec_mutated(m) {
                Ok(mutated) => r is Ok && *final(self) == mutated,
                Err(e) => r == Err::<(), MutationError>(e) && *final(self) == *old(self),
            }),
            final(self).restrictions == old(self).restrictions,
            final(self).total_borrowed == old(self).total_borrowed,
            final(self).has_drawn == old(self).has_drawn,
            final(self).total_repaid == old(self).total_repaid,
            final(self).write_off_percentage == old(self).write_off_percentage,
            final(self).principal == old(self).principal,
    {
        match m {
            LoanMutation::Maturity(maturity) => {
                self.schedule.maturity = maturity;
                Ok(())
            },
            LoanMutation::InterestPayments(interest_payments) => {
                self.schedule.interest_payments = interest_payments;
                Ok(())
            },
            LoanMutation::PayDownSchedule(pay_down_schedule) => {
                self.schedule.pay_down_schedule = pay_down_schedule;
                Ok(())
            },
            LoanMutation::Internal(im) => self.mutate_internal(im),
        }
    }

    /// Apply one internal pricing mutation: only internally priced loans
    /// accept them, and the discounted cash flow parameters only exist under
    /// that valuation method.
    fn mutate_internal(&mut self, im: InternalMutation<Rate>) -> (r: Result<(), MutationError>)
        ensures
            (match old(self).spec_internally_mutated(im) {
                Ok(mutated) => r is Ok && *final(self) == mutated,
                Err(e) => r == Err::<(), MutationError>(e) && *final(self) == *old(self),
            }),
    {
        match &mut self.pricing {
            Pricing::External => Err(MutationError::InternalPricingExpected),
            Pricing::Internal(ip) => match im {
                InternalMutation::InterestRate(rate) => {
                    ip.interest_rate = rate;
                    Ok(())
                },
                InternalMutation::ValuationMethod(vm) => {
                    ip.valuation_method = vm;
                    Ok(())
                },
                InternalMutation::ProbabilityOfDefault(rate) => {
                    match &mut ip.valuation_method {
                        ValuationMethod::DiscountedCashFlow(dcf) => {
                            dcf.probability_of_default = rate;
                            Ok(())
                        },
                        ValuationMethod::OutstandingDebt =>
                            Err(MutationError::DiscountedCashFlowExpected),
                    }
                },
                InternalMutation::LossGivenDefault(rate) => {
                    match &mut ip.valuation_method {
                        ValuationMethod::DiscountedCashFlow(dcf) => {
                            dcf.loss_given_default = rate;
                            Ok(())
                        },
                        ValuationMethod::OutstandingDebt =>
                            Err(MutationError::DiscountedCashFlowExpected),
                    }
                },
                InternalMutation::DiscountRate(rate) => {
                    match &mut ip.valuation_method {
                        ValuationMethod::DiscountedCashFlow(dcf) => {
                            dcf.discount_rate = rate;
                            Ok(())
                        },
                        ValuationMethod::OutstandingDebt =>
                            Err(MutationError::DiscountedCashFlowExpected),
                    }
                },
            },
        }
    }

    /// The loan's interest rate, if it carries an internal pricing.
    pub fn interest_rate(&self) -> (r: Option<Rate>)
        where Rate: Copy,
        ensures
            r == self.spec_interest_rate(),
    {
        match &self.pricing {
            Pricing::Internal(ip) => Some(ip.interest_rate),
            Pricing::External => None,
        }
    }
}

/// Under `FullOnce` borrow restrictions, once one draw has succeeded every
/// further borrow attempt is rejected with `Restriction`, whatever amount,
/// limit and time it asks for.
pub proof fn lemma_full_once_second_borrow<Rate>(
    loan: Loan<Rate>,
    amount: u128,
    max_borrow_amount: u128,
    now: Moment,
    amount2: u128,
    max_borrow_amount2: u128,
    now2: Moment,
)
    requires
        loan.restrictions.borrows is FullOnce,
        loan.total_borrowed + amount <= u128::MAX,
        loan.spec_borrow_decision(amount, max_borrow_amount, now) is Ok,
    ensures
        (Loan {
            total_borrowed: (loan.total_borrowed + amount) as u128,
            has_drawn: true,
            ..loan
        }).spec_borrow_decision(amount2, max_borrow_amount2, now2)
            == Err::<(), BorrowLoanError>(BorrowLoanError::Restriction),
{
}

/// Under `NotWrittenOff` borrow restrictions, any borrow attempt on a loan
/// with a non-zero write-off applied is rejected with `Restriction`.
pub proof fn lemma_not_written_off_borrow<Rate>(
    loan: Loan<Rate>,
    amount: u128,
    max_borrow_amount: u128,
    now: Moment,
)
    requires
        loan.restrictions.borrows is NotWrittenOff,
        loan.write_off_percentage != 0,
    ensures
        loan.spec_borrow_decision(amount, max_borrow_amount, now)
            == Err::<(), BorrowLoanError>(BorrowLoanError::Restriction),
{
}

/// Under `FullOnce` repay restrictions, a repayment of any amount strictly
/// below the full outstanding debt is rejected with `Restriction`, and a
/// repayment of exactly the full outstanding debt passes.
pub proof fn lemma_full_once_repay<Rate>(loan: Loan<Rate>, amount: u128)
    requires
        loan.restrictions.repayments is FullOnce,
    ensures
        amount < loan.spec_outstanding()
            ==> loan.spec_repay_decision(amount)
                == Err::<(), RepayLoanError>(RepayLoanError::Restriction),
        amount == loan.spec_outstanding() ==> loan.spec_repay_decision(amount) is Ok,
{
}

/// Mutating the interest rate fails with `InternalPricingExpected` exactly on
/// loans without an internal pricing; on an internally priced loan it
/// succeeds, and the new rate reads back unchanged.
pub proof fn lemma_internal_rate_mutation<Rate>(loan: Loan<Rate>, rate: Rate)
    ensures
        !loan.spec_is_internally_priced() ==> loan.spec_mutated(
            LoanMutation::Internal(InternalMutation::InterestRate(rate)))
            == Err::<Loan<Rate>, MutationError>(MutationError::InternalPricingExpected),
        loan.spec_is_internally_priced() ==> (loan.spec_mutated(
            LoanMutation::Internal(InternalMutation::InterestRate(rate)))
            matches Ok(mutated) && mutated.spec_interest_rate() == Some(rate)),
{
}

} // verus!
