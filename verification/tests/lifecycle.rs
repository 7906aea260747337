use loans_core::errors::{
    BorrowLoanError, CloseLoanError, CreateLoanError, MutationError, RepayLoanError,
    WrittenOffError,
};
use loans_core::loan::{InternalPricing, Loan, Pricing};
use loans_core::types::{
    BorrowRestrictions, InterestPayments, InternalMutation, LoanMutation, LoanRestrictions,
    Maturity, PayDownSchedule, RepayRestrictions, RepaymentSchedule,
};
use loans_core::valuation::{DiscountedCashFlow, ValuationMethod};

fn schedule(maturity: u64) -> RepaymentSchedule {
    RepaymentSchedule {
        maturity: Maturity::Fixed(maturity),
        interest_payments: InterestPayments::OnceAtMaturity,
        pay_down_schedule: PayDownSchedule::OnceAtMaturity,
    }
}

fn restrictions(borrows: BorrowRestrictions, repayments: RepayRestrictions) -> LoanRestrictions {
    LoanRestrictions { borrows, repayments }
}

fn internal_pricing(rate: u128) -> Pricing<u128> {
    Pricing::Internal(InternalPricing {
        interest_rate: rate,
        valuation_method: ValuationMethod::OutstandingDebt,
    })
}

fn dcf_pricing(rate: u128) -> Pricing<u128> {
    Pricing::Internal(InternalPricing {
        interest_rate: rate,
        valuation_method: ValuationMethod::DiscountedCashFlow(DiscountedCashFlow {
            probability_of_default: 1,
            loss_given_default: 2,
            discount_rate: 3,
        }),
    })
}

#[test]
fn maturity_date_and_validity_boundary() {
    let m = Maturity::Fixed(1000);
    assert_eq!(m.date(), 1000);
    assert!(m.is_valid(999));
    assert!(!m.is_valid(1000));
    assert!(!m.is_valid(1001));
}

#[test]
fn repayment_schedule_validity_follows_maturity() {
    let s = schedule(1000);
    assert!(s.is_valid(0));
    assert!(s.is_valid(999));
    assert!(!s.is_valid(1000));
    assert!(!s.is_valid(2000));
}

#[test]
fn create_rejects_past_maturity() {
    let r: Result<Loan<u128>, CreateLoanError> = Loan::create(
        schedule(1000),
        restrictions(BorrowRestrictions::NotWrittenOff, RepayRestrictions::Unrestricted),
        Pricing::External,
        100,
        1000,
    );
    assert_eq!(r, Err(CreateLoanError::InvalidRepaymentSchedule));
}

#[test]
fn create_starts_with_empty_history() {
    let loan: Loan<u128> = Loan::create(
        schedule(1000),
        restrictions(BorrowRestrictions::FullOnce, RepayRestrictions::FullOnce),
        Pricing::External,
        100,
        500,
    )
    .unwrap();
    assert_eq!(loan.total_borrowed, 0);
    assert_eq!(loan.total_repaid, 0);
    assert_eq!(loan.write_off_percentage, 0);
    assert_eq!(loan.principal, 100);
    assert_eq!(loan.outstanding_debt(), 0);
}

#[test]
fn full_once_lifecycle_scenario() {
    let mut loan: Loan<u128> = Loan::create(
        schedule(1000),
        restrictions(BorrowRestrictions::FullOnce, RepayRestrictions::FullOnce),
        Pricing::External,
        100,
        500,
    )
    .unwrap();

    assert_eq!(loan.borrow(100, 100, 500), Ok(()));
    assert_eq!(loan.total_borrowed, 100);

    assert_eq!(loan.borrow(100, 100, 600), Err(BorrowLoanError::Restriction));
    assert_eq!(loan.borrow(1, 100, 600), Err(BorrowLoanError::Restriction));

    assert_eq!(loan.repay(40, 700), Err(RepayLoanError::Restriction));
    assert_eq!(loan.outstanding_debt(), 100);

    assert_eq!(loan.repay(100, 800), Ok(()));
    assert_eq!(loan.outstanding_debt(), 0);

    assert_eq!(loan.close(900), Ok(()));

    let mut fresh: Loan<u128> = Loan::create(
        schedule(1000),
        restrictions(BorrowRestrictions::FullOnce, RepayRestrictions::FullOnce),
        Pricing::External,
        100,
        500,
    )
    .unwrap();
    assert_eq!(fresh.borrow(100, 100, 1100), Err(BorrowLoanError::MaturityDatePassed));
}

#[test]
fn full_once_partial_first_draw_rejected() {
    let mut loan: Loan<u128> = Loan::create(
        schedule(1000),
        restrictions(BorrowRestrictions::FullOnce, RepayRestrictions::Unrestricted),
        Pricing::External,
        100,
        500,
    )
    .unwrap();
    assert_eq!(loan.borrow(50, 100, 500), Err(BorrowLoanError::Restriction));
    assert_eq!(loan.total_borrowed, 0);
}

#[test]
fn borrow_over_limit_rejected() {
    let mut loan: Loan<u128> = Loan::create(
        schedule(1000),
        restrictions(BorrowRestrictions::NotWrittenOff, RepayRestrictions::Unrestricted),
        Pricing::External,
        100,
        500,
    )
    .unwrap();
    assert_eq!(loan.borrow(150, 100, 500), Err(BorrowLoanError::MaxAmountExceeded));
    assert_eq!(loan.total_borrowed, 0);
    assert_eq!(loan.borrow(150, 150, 500), Ok(()));
    assert_eq!(loan.total_borrowed, 150);
}

#[test]
fn borrow_after_any_nonzero_write_off_rejected() {
    let mut loan: Loan<u128> = Loan::create(
        schedule(1000),
        restrictions(BorrowRestrictions::NotWrittenOff, RepayRestrictions::Unrestricted),
        Pricing::External,
        100,
        500,
    )
    .unwrap();
    assert_eq!(loan.borrow(10, 100, 500), Ok(()));
    assert_eq!(loan.write_off(1, 0), Ok(()));
    assert_eq!(loan.borrow(10, 100, 600), Err(BorrowLoanError::Restriction));
}

#[test]
fn borrow_after_zero_write_off_allowed() {
    let mut loan: Loan<u128> = Loan::create(
        schedule(1000),
        restrictions(BorrowRestrictions::NotWrittenOff, RepayRestrictions::Unrestricted),
        Pricing::External,
        100,
        500,
    )
    .unwrap();
    assert_eq!(loan.write_off(0, 0), Ok(()));
    assert_eq!(loan.borrow(10, 100, 600), Ok(()));
}

#[test]
fn write_off_below_policy_minimum_rejected() {
    let mut loan: Loan<u128> = Loan::create(
        schedule(1000),
        restrictions(BorrowRestrictions::NotWrittenOff, RepayRestrictions::Unrestricted),
        Pricing::External,
        100,
        500,
    )
    .unwrap();
    assert_eq!(loan.write_off(4, 5), Err(WrittenOffError::LessThanPolicy));
    assert_eq!(loan.write_off_percentage, 0);
    assert_eq!(loan.write_off(5, 5), Ok(()));
    assert_eq!(loan.write_off_percentage, 5);
    assert_eq!(loan.write_off(7, 5), Ok(()));
    assert_eq!(loan.write_off_percentage, 7);
}

#[test]
fn unrestricted_repay_caps_at_outstanding() {
    let mut loan: Loan<u128> = Loan::create(
        schedule(1000),
        restrictions(BorrowRestrictions::NotWrittenOff, RepayRestrictions::Unrestricted),
        Pricing::External,
        100,
        500,
    )
    .unwrap();
    assert_eq!(loan.borrow(100, 100, 500), Ok(()));
    assert_eq!(loan.repay(150, 600), Ok(()));
    assert_eq!(loan.outstanding_debt(), 0);
    assert_eq!(loan.close(700), Ok(()));
}

#[test]
fn full_once_repay_boundary() {
    let mut loan: Loan<u128> = Loan::create(
        schedule(1000),
        restrictions(BorrowRestrictions::NotWrittenOff, RepayRestrictions::FullOnce),
        Pricing::External,
        100,
        500,
    )
    .unwrap();
    assert_eq!(loan.borrow(100, 100, 500), Ok(()));
    assert_eq!(loan.repay(99, 600), Err(RepayLoanError::Restriction));
    assert_eq!(loan.repay(101, 600), Err(RepayLoanError::Restriction));
    assert_eq!(loan.outstanding_debt(), 100);
    assert_eq!(loan.repay(100, 600), Ok(()));
    assert_eq!(loan.outstanding_debt(), 0);
}

#[test]
fn close_rejected_while_smallest_unit_outstanding() {
    let mut loan: Loan<u128> = Loan::create(
        schedule(1000),
        restrictions(BorrowRestrictions::NotWrittenOff, RepayRestrictions::Unrestricted),
        Pricing::External,
        100,
        500,
    )
    .unwrap();
    assert_eq!(loan.borrow(100, 100, 500), Ok(()));
    assert_eq!(loan.repay(99, 600), Ok(()));
    assert_eq!(loan.outstanding_debt(), 1);
    assert_eq!(loan.close(700), Err(CloseLoanError::NotFullyRepaid));
    assert_eq!(loan.repay(1, 800), Ok(()));
    assert_eq!(loan.close(900), Ok(()));
}

#[test]
fn interest_rate_mutation_needs_internal_pricing() {
    let mut external: Loan<u128> = Loan::create(
        schedule(1000),
        restrictions(BorrowRestrictions::NotWrittenOff, RepayRestrictions::Unrestricted),
        Pricing::External,
        100,
        500,
    )
    .unwrap();
    assert_eq!(
        external.mutate(LoanMutation::Internal(InternalMutation::InterestRate(9))),
        Err(MutationError::InternalPricingExpected)
    );
    assert_eq!(external.interest_rate(), None);

    let mut internal: Loan<u128> = Loan::create(
        schedule(1000),
        restrictions(BorrowRestrictions::NotWrittenOff, RepayRestrictions::Unrestricted),
        internal_pricing(5),
        100,
        500,
    )
    .unwrap();
    assert_eq!(
        internal.mutate(LoanMutation::Internal(InternalMutation::InterestRate(9))),
        Ok(())
    );
    assert_eq!(internal.interest_rate(), Some(9));
}

#[test]
fn discount_parameters_need_discounted_cash_flow() {
    let mut outstanding_debt_loan: Loan<u128> = Loan::create(
        schedule(1000),
        restrictions(BorrowRestrictions::NotWrittenOff, RepayRestrictions::Unrestricted),
        internal_pricing(5),
        100,
        500,
    )
    .unwrap();
    assert_eq!(
        outstanding_debt_loan.mutate(LoanMutation::Internal(
            InternalMutation::ProbabilityOfDefault(8)
        )),
        Err(MutationError::DiscountedCashFlowExpected)
    );
    assert_eq!(
        outstanding_debt_loan.mutate(LoanMutation::Internal(InternalMutation::LossGivenDefault(8))),
        Err(MutationError::DiscountedCashFlowExpected)
    );
    assert_eq!(
        outstanding_debt_loan.mutate(LoanMutation::Internal(InternalMutation::DiscountRate(8))),
        Err(MutationError::DiscountedCashFlowExpected)
    );

    let mut dcf_loan: Loan<u128> = Loan::create(
        schedule(1000),
        restrictions(BorrowRestrictions::NotWrittenOff, RepayRestrictions::Unrestricted),
        dcf_pricing(5),
        100,
        500,
    )
    .unwrap();
    assert_eq!(
        dcf_loan.mutate(LoanMutation::Internal(InternalMutation::ProbabilityOfDefault(8))),
        Ok(())
    );
    assert_eq!(
        dcf_loan.mutate(LoanMutation::Internal(InternalMutation::LossGivenDefault(9))),
        Ok(())
    );
    assert_eq!(
        dcf_loan.mutate(LoanMutation::Internal(InternalMutation::DiscountRate(10))),
        Ok(())
    );
    assert_eq!(
        dcf_loan.pricing,
        Pricing::Internal(InternalPricing {
            interest_rate: 5,
            valuation_method: ValuationMethod::DiscountedCashFlow(DiscountedCashFlow {
                probability_of_default: 8,
                loss_given_default: 9,
                discount_rate: 10,
            }),
        })
    );
}

#[test]
fn term_mutations_replace_exactly_one_field() {
    let mut loan: Loan<u128> = Loan::create(
        schedule(1000),
        restrictions(BorrowRestrictions::FullOnce, RepayRestrictions::FullOnce),
        internal_pricing(5),
        100,
        500,
    )
    .unwrap();
    assert_eq!(loan.mutate(LoanMutation::Maturity(Maturity::Fixed(2000))), Ok(()));
    assert_eq!(loan.schedule.maturity, Maturity::Fixed(2000));
    assert_eq!(loan.schedule.interest_payments, InterestPayments::OnceAtMaturity);
    assert_eq!(loan.schedule.pay_down_schedule, PayDownSchedule::OnceAtMaturity);
    assert_eq!(
        loan.mutate(LoanMutation::InterestPayments(InterestPayments::OnceAtMaturity)),
        Ok(())
    );
    assert_eq!(
        loan.mutate(LoanMutation::PayDownSchedule(PayDownSchedule::OnceAtMaturity)),
        Ok(())
    );
    assert_eq!(
        loan.restrictions,
        restrictions(BorrowRestrictions::FullOnce, RepayRestrictions::FullOnce)
    );
    assert_eq!(loan.interest_rate(), Some(5));

    let new_method = ValuationMethod::DiscountedCashFlow(DiscountedCashFlow {
        probability_of_default: 1,
        loss_given_default: 1,
        discount_rate: 1,
    });
    assert_eq!(
        loan.mutate(LoanMutation::Internal(InternalMutation::ValuationMethod(new_method))),
        Ok(())
    );
    assert_eq!(
        loan.pricing,
        Pricing::Internal(InternalPricing { interest_rate: 5, valuation_method: new_method })
    );
}

#[test]
fn change_envelope_splits_into_target_and_mutation() {
    let change: loans_core::types::Change<u64, u128> = loans_core::types::Change::Loan(
        7,
        LoanMutation::Internal(InternalMutation::InterestRate(9)),
    );
    let (id, mutation) = change.into_parts();
    assert_eq!(id, 7);
    assert_eq!(mutation, LoanMutation::Internal(InternalMutation::InterestRate(9)));

    let mut loan: Loan<u128> = Loan::create(
        schedule(1000),
        restrictions(BorrowRestrictions::NotWrittenOff, RepayRestrictions::Unrestricted),
        internal_pricing(5),
        100,
        500,
    )
    .unwrap();
    assert_eq!(loan.mutate(mutation), Ok(()));
    assert_eq!(loan.interest_rate(), Some(9));
}

#[test]
fn full_once_zero_principal_single_draw_only() {
    let mut loan: Loan<u128> = Loan::create(
        schedule(1000),
        restrictions(BorrowRestrictions::FullOnce, RepayRestrictions::Unrestricted),
        Pricing::External,
        0,
        500,
    )
    .unwrap();
    assert_eq!(loan.borrow(0, 10, 500), Ok(()));
    assert_eq!(loan.borrow(0, 10, 600), Err(BorrowLoanError::Restriction));
    assert_eq!(loan.total_borrowed, 0);
}
