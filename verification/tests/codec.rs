use loans_core::codec::{
    decode_borrow_restrictions, decode_change, decode_interest_payments, decode_loan_mutation,
    decode_loan_restrictions, decode_maturity, decode_pay_down_schedule,
    decode_repay_restrictions, decode_repayment_schedule, decode_u128, decode_u64,
    encode_change, encode_loan_mutation, encode_loan_restrictions, encode_maturity,
    encode_repayment_schedule, encode_u128, encode_u64, max_encoded_len_change,
    max_encoded_len_internal_mutation, max_encoded_len_loan_mutation,
    max_encoded_len_loan_restrictions, max_encoded_len_maturity,
    max_encoded_len_repayment_schedule, max_encoded_len_valuation_method, DecodeError,
};
use loans_core::types::{
    BorrowRestrictions, Change, InterestPayments, InternalMutation, LoanMutation,
    LoanRestrictions, Maturity, PayDownSchedule, RepayRestrictions, RepaymentSchedule,
};
use loans_core::valuation::{DiscountedCashFlow, ValuationMethod};

fn sample_schedule(maturity: u64) -> RepaymentSchedule {
    RepaymentSchedule {
        maturity: Maturity::Fixed(maturity),
        interest_payments: InterestPayments::OnceAtMaturity,
        pay_down_schedule: PayDownSchedule::OnceAtMaturity,
    }
}

#[test]
fn u64_little_endian_bytes() {
    let mut out = Vec::new();
    encode_u64(0x0102030405060708, &mut out);
    assert_eq!(out, vec![8, 7, 6, 5, 4, 3, 2, 1]);
    assert_eq!(decode_u64(&out, 0), Ok((0x0102030405060708, 8)));
}

#[test]
fn u128_round_trip_extremes() {
    for v in [0u128, 1, u128::MAX, u128::MAX - 1, 1 << 127] {
        let mut out = Vec::new();
        encode_u128(v, &mut out);
        assert_eq!(out.len(), 16);
        assert_eq!(decode_u128(&out, 0), Ok((v, 16)));
    }
}

#[test]
fn truncated_integer_rejected() {
    let mut out = Vec::new();
    encode_u64(7, &mut out);
    out.pop();
    assert_eq!(decode_u64(&out, 0), Err(DecodeError::Truncated));
    assert_eq!(decode_u128(&out, 0), Err(DecodeError::Truncated));
}

#[test]
fn maturity_exact_bytes() {
    let mut out = Vec::new();
    encode_maturity(&Maturity::Fixed(1), &mut out);
    assert_eq!(out, vec![0, 1, 0, 0, 0, 0, 0, 0, 0]);
}

#[test]
fn maturity_round_trip_extremes() {
    for v in [0u64, 1, 1000, u64::MAX] {
        let m = Maturity::Fixed(v);
        let mut out = Vec::new();
        encode_maturity(&m, &mut out);
        assert_eq!(out.len(), 9);
        assert_eq!(decode_maturity(&out, 0), Ok((m, 9)));
    }
}

#[test]
fn maturity_round_trip_with_trailing_bytes() {
    let m = Maturity::Fixed(42);
    let mut out = Vec::new();
    encode_maturity(&m, &mut out);
    out.push(0xaa);
    out.push(0xbb);
    assert_eq!(decode_maturity(&out, 0), Ok((m, 9)));
}

#[test]
fn maturity_unknown_tag_rejected() {
    let bytes = vec![9, 1, 0, 0, 0, 0, 0, 0, 0];
    assert_eq!(decode_maturity(&bytes, 0), Err(DecodeError::UnknownTag));
}

#[test]
fn maturity_truncated_rejected() {
    let empty: Vec<u8> = Vec::new();
    assert_eq!(decode_maturity(&empty, 0), Err(DecodeError::Truncated));
    let bytes = vec![0, 1, 0, 0];
    assert_eq!(decode_maturity(&bytes, 0), Err(DecodeError::Truncated));
}

#[test]
fn repayment_schedule_round_trip() {
    for v in [0u64, 1000, u64::MAX] {
        let s = sample_schedule(v);
        let mut out = Vec::new();
        encode_repayment_schedule(&s, &mut out);
        assert_eq!(out.len(), 11);
        assert_eq!(decode_repayment_schedule(&out, 0), Ok((s, 11)));
    }
}

#[test]
fn schedule_placeholders_round_trip() {
    let bytes = vec![0u8];
    assert_eq!(decode_interest_payments(&bytes, 0), Ok((InterestPayments::OnceAtMaturity, 1)));
    assert_eq!(decode_pay_down_schedule(&bytes, 0), Ok((PayDownSchedule::OnceAtMaturity, 1)));
    let bad = vec![1u8];
    assert_eq!(decode_interest_payments(&bad, 0), Err(DecodeError::UnknownTag));
    assert_eq!(decode_pay_down_schedule(&bad, 0), Err(DecodeError::UnknownTag));
}

#[test]
fn loan_restrictions_round_trip_all_combinations() {
    for borrows in [BorrowRestrictions::NotWrittenOff, BorrowRestrictions::FullOnce] {
        for repayments in [RepayRestrictions::Unrestricted, RepayRestrictions::FullOnce] {
            let x = LoanRestrictions { borrows, repayments };
            let mut out = Vec::new();
            encode_loan_restrictions(&x, &mut out);
            assert_eq!(out.len(), 2);
            assert_eq!(decode_loan_restrictions(&out, 0), Ok((x, 2)));
        }
    }
}

#[test]
fn restriction_unknown_tags_rejected() {
    let bad = vec![2u8];
    assert_eq!(decode_borrow_restrictions(&bad, 0), Err(DecodeError::UnknownTag));
    assert_eq!(decode_repay_restrictions(&bad, 0), Err(DecodeError::UnknownTag));
    assert_eq!(decode_loan_restrictions(&bad, 0), Err(DecodeError::UnknownTag));
}

#[test]
fn loan_mutation_round_trip_every_variant() {
    let mutations: Vec<LoanMutation<u128>> = vec![
        LoanMutation::Maturity(Maturity::Fixed(77)),
        LoanMutation::InterestPayments(InterestPayments::OnceAtMaturity),
        LoanMutation::PayDownSchedule(PayDownSchedule::OnceAtMaturity),
        LoanMutation::Internal(InternalMutation::InterestRate(5)),
        LoanMutation::Internal(InternalMutation::ValuationMethod(
            ValuationMethod::OutstandingDebt,
        )),
        LoanMutation::Internal(InternalMutation::ValuationMethod(
            ValuationMethod::DiscountedCashFlow(DiscountedCashFlow {
                probability_of_default: 11,
                loss_given_default: 22,
                discount_rate: 33,
            }),
        )),
        LoanMutation::Internal(InternalMutation::ProbabilityOfDefault(6)),
        LoanMutation::Internal(InternalMutation::LossGivenDefault(7)),
        LoanMutation::Internal(InternalMutation::DiscountRate(8)),
    ];
    for m in mutations {
        let mut out = Vec::new();
        encode_loan_mutation(&m, &mut out);
        assert_eq!(decode_loan_mutation(&out, 0), Ok((m, out.len())));
    }
}

#[test]
fn change_round_trip_minimal() {
    let c: Change<u64, u128> =
        Change::Loan(0, LoanMutation::InterestPayments(InterestPayments::OnceAtMaturity));
    let mut out = Vec::new();
    encode_change(&c, &mut out);
    assert_eq!(out.len(), 11);
    assert_eq!(decode_change(&out, 0), Ok((c, 11)));
}

#[test]
fn change_round_trip_maximal() {
    let c: Change<u64, u128> = Change::Loan(
        u64::MAX,
        LoanMutation::Internal(InternalMutation::ValuationMethod(
            ValuationMethod::DiscountedCashFlow(DiscountedCashFlow {
                probability_of_default: u128::MAX,
                loss_given_default: u128::MAX,
                discount_rate: u128::MAX,
            }),
        )),
    );
    let mut out = Vec::new();
    encode_change(&c, &mut out);
    assert_eq!(out.len(), 60);
    assert_eq!(out.len(), max_encoded_len_change());
    assert_eq!(decode_change(&out, 0), Ok((c, 60)));
}

#[test]
fn change_unknown_tags_rejected() {
    let bad_outer = vec![1u8, 0, 0, 0, 0, 0, 0, 0, 0];
    assert_eq!(decode_change(&bad_outer, 0), Err(DecodeError::UnknownTag));

    let c: Change<u64, u128> = Change::Loan(3, LoanMutation::Maturity(Maturity::Fixed(9)));
    let mut out = Vec::new();
    encode_change(&c, &mut out);
    out[9] = 250;
    assert_eq!(decode_change(&out, 0), Err(DecodeError::UnknownTag));
}

#[test]
fn change_truncated_rejected() {
    let c: Change<u64, u128> = Change::Loan(3, LoanMutation::Internal(
        InternalMutation::InterestRate(12345),
    ));
    let mut out = Vec::new();
    encode_change(&c, &mut out);
    out.truncate(out.len() - 1);
    assert_eq!(decode_change(&out, 0), Err(DecodeError::Truncated));
}

#[test]
fn decode_at_offset_inside_buffer() {
    let mut out = vec![0xffu8, 0xee];
    let m = Maturity::Fixed(5);
    encode_maturity(&m, &mut out);
    assert_eq!(decode_maturity(&out, 2), Ok((m, 11)));
}

#[test]
fn size_bounds_hold_for_samples() {
    assert_eq!(max_encoded_len_maturity(), 9);
    assert_eq!(max_encoded_len_repayment_schedule(), 11);
    assert_eq!(max_encoded_len_loan_restrictions(), 2);
    assert_eq!(max_encoded_len_valuation_method(), 49);
    assert_eq!(max_encoded_len_internal_mutation(), 50);
    assert_eq!(max_encoded_len_loan_mutation(), 51);
    assert_eq!(max_encoded_len_change(), 60);

    let c: Change<u64, u128> = Change::Loan(1, LoanMutation::Maturity(Maturity::Fixed(2)));
    let mut out = Vec::new();
    encode_change(&c, &mut out);
    assert!(out.len() <= max_encoded_len_change());
}
