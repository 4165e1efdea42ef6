use loan_manager::errors::LoanError;
use loan_manager::loan::LoanStatus;
use loan_manager::manager::LoanConfig;
use loan_manager::manager::LoanManager;

const ORACLE: u64 = 900;
const BORROWER: u64 = 77;

fn config() -> LoanConfig {
    LoanConfig { nft_contract: 1, pool_contract: 2, oracle: ORACLE, usdc_token: 3 }
}

/// A manager holding one approved (Active) loan of 1_000_000 at 2000 bps
/// over 12 months, under id 1.
fn manager_with_active_loan() -> LoanManager {
    let mut m = LoanManager::new(config());
    let id = m.request_loan(BORROWER, 5, 1_000_000, 12, 1_000).unwrap();
    assert_eq!(id, 1);
    m.approve_loan(id).unwrap();
    m
}

#[test]
fn request_creates_pending_loan() {
    let mut m = LoanManager::new(config());
    let id = m.request_loan(BORROWER, 5, 1_000_000, 12, 1_000).unwrap();
    assert_eq!(id, 1);
    let l = m.get_loan(id).unwrap();
    assert_eq!(l.loan_id, 1);
    assert_eq!(l.borrower, BORROWER);
    assert_eq!(l.nft_collateral_id, 5);
    assert_eq!(l.loan_amount, 1_000_000);
    assert_eq!(l.outstanding_balance, 1_000_000);
    assert_eq!(l.total_repaid, 0);
    assert_eq!(l.interest_rate, 2000);
    assert_eq!(l.duration_months, 12);
    assert_eq!(l.monthly_payment, 100_000);
    assert_eq!(l.start_timestamp, 1_000);
    assert_eq!(l.next_payment_due, 1_000 + 2_592_000);
    assert_eq!(l.status, LoanStatus::Pending);
    assert_eq!(l.payments_made, 0);
    assert_eq!(l.payments_missed, 0);
}

#[test]
fn request_rejects_non_positive_amount() {
    let mut m = LoanManager::new(config());
    assert_eq!(m.request_loan(BORROWER, 5, 0, 12, 0), Err(LoanError::InvalidArgument));
    assert_eq!(m.request_loan(BORROWER, 5, -7, 12, 0), Err(LoanError::InvalidArgument));
    assert_eq!(m.get_loan(1), Err(LoanError::NotFound));
}

#[test]
fn request_rejects_zero_duration() {
    let mut m = LoanManager::new(config());
    assert_eq!(m.request_loan(BORROWER, 5, 1_000_000, 0, 0), Err(LoanError::InvalidArgument));
    assert_eq!(m.get_loan(1), Err(LoanError::NotFound));
}

#[test]
fn ids_are_sequential_and_never_reused() {
    let mut m = LoanManager::new(config());
    assert_eq!(m.request_loan(BORROWER, 5, 1_000, 6, 0).unwrap(), 1);
    assert_eq!(m.request_loan(BORROWER, 6, 2_000, 6, 0).unwrap(), 2);
    assert_eq!(m.request_loan(500, 7, 3_000, 6, 0).unwrap(), 3);
}

#[test]
fn borrower_index_keeps_creation_order() {
    let mut m = LoanManager::new(config());
    m.request_loan(BORROWER, 5, 1_000, 6, 0).unwrap();
    m.request_loan(500, 6, 2_000, 6, 0).unwrap();
    m.request_loan(BORROWER, 7, 3_000, 6, 0).unwrap();
    assert_eq!(m.loans_of(BORROWER), vec![1, 3]);
    assert_eq!(m.loans_of(500), vec![2]);
    assert_eq!(m.loans_of(12345), Vec::<u64>::new());
}

#[test]
fn approve_activates_pending_loan() {
    let mut m = LoanManager::new(config());
    let id = m.request_loan(BORROWER, 5, 1_000_000, 12, 0).unwrap();
    assert_eq!(m.approve_loan(id), Ok(()));
    let l = m.get_loan(id).unwrap();
    assert_eq!(l.status, LoanStatus::Active);
    assert_eq!(l.outstanding_balance, 1_000_000);
}

#[test]
fn approve_missing_loan_fails_not_found() {
    let mut m = LoanManager::new(config());
    assert_eq!(m.approve_loan(9), Err(LoanError::NotFound));
}

#[test]
fn approve_twice_fails_invalid_state_without_mutation() {
    let mut m = LoanManager::new(config());
    let id = m.request_loan(BORROWER, 5, 1_000_000, 12, 0).unwrap();
    assert_eq!(m.approve_loan(id), Ok(()));
    let before = m.get_loan(id).unwrap();
    assert_eq!(m.approve_loan(id), Err(LoanError::InvalidState));
    let after = m.get_loan(id).unwrap();
    assert_eq!(after.status, before.status);
    assert_eq!(after.outstanding_balance, before.outstanding_balance);
    assert_eq!(after, before);
}

#[test]
fn payment_splits_against_pre_payment_balance() {
    let mut m = manager_with_active_loan();
    let receipt = m.make_payment(1, 100_000).unwrap();
    // Monthly rate 166 bps; 1_000_000 * 166 / 10000 = 16_600 interest.
    assert_eq!(receipt.interest_portion, 16_600);
    assert_eq!(receipt.principal_portion, 83_400);
    let l = m.get_loan(1).unwrap();
    assert_eq!(l.outstanding_balance, 916_600);
    assert_eq!(l.total_repaid, 100_000);
    assert_eq!(l.payments_made, 1);
    assert_eq!(l.next_payment_due, 1_000 + 2 * 2_592_000);
    assert_eq!(l.status, LoanStatus::Active);
}

#[test]
fn payment_below_interest_reduces_no_principal() {
    let mut m = manager_with_active_loan();
    let receipt = m.make_payment(1, 10_000).unwrap();
    assert_eq!(receipt.interest_portion, 16_600);
    assert_eq!(receipt.principal_portion, 0);
    let l = m.get_loan(1).unwrap();
    assert_eq!(l.outstanding_balance, 1_000_000);
    assert_eq!(l.total_repaid, 10_000);
    assert_eq!(l.status, LoanStatus::Active);
}

#[test]
fn overpayment_clamps_balance_at_zero_and_repays() {
    let mut m = manager_with_active_loan();
    let receipt = m.make_payment(1, 5_000_000).unwrap();
    assert_eq!(receipt.interest_portion, 16_600);
    assert_eq!(receipt.principal_portion, 4_983_400);
    let l = m.get_loan(1).unwrap();
    assert_eq!(l.outstanding_balance, 0);
    assert_eq!(l.status, LoanStatus::Repaid);
    assert_eq!(l.total_repaid, 5_000_000);
}

#[test]
fn payment_on_pending_loan_fails_invalid_state() {
    let mut m = LoanManager::new(config());
    let id = m.request_loan(BORROWER, 5, 1_000_000, 12, 0).unwrap();
    assert_eq!(m.make_payment(id, 100_000), Err(LoanError::InvalidState));
    assert_eq!(m.get_loan(id).unwrap().total_repaid, 0);
}

#[test]
fn payment_on_missing_loan_fails_not_found() {
    let mut m = LoanManager::new(config());
    assert_eq!(m.make_payment(3, 100_000), Err(LoanError::NotFound));
}

#[test]
fn payment_rejects_non_positive_amount() {
    let mut m = manager_with_active_loan();
    assert_eq!(m.make_payment(1, 0), Err(LoanError::InvalidArgument));
    assert_eq!(m.make_payment(1, -5), Err(LoanError::InvalidArgument));
    assert_eq!(m.get_loan(1).unwrap().total_repaid, 0);
}

#[test]
fn payment_on_repaid_loan_fails_invalid_state() {
    let mut m = manager_with_active_loan();
    m.make_payment(1, 5_000_000).unwrap();
    assert_eq!(m.make_payment(1, 1), Err(LoanError::InvalidState));
}

#[test]
fn repaid_totals_never_decrease_across_payments() {
    let mut m = manager_with_active_loan();
    let mut last_repaid: i128 = 0;
    let mut last_made: u32 = 0;
    let amounts: [i128; 5] = [100_000, 10_000, 1, 250_000, 99_999];
    for a in amounts {
        m.make_payment(1, a).unwrap();
        let l = m.get_loan(1).unwrap();
        assert!(l.total_repaid >= last_repaid);
        assert!(l.payments_made >= last_made);
        last_repaid = l.total_repaid;
        last_made = l.payments_made;
    }
}

#[test]
fn twelve_installments_repay_the_example_loan() {
    let mut m = manager_with_active_loan();
    for _k in 0..12 {
        m.make_payment(1, 100_000).unwrap();
    }
    let l = m.get_loan(1).unwrap();
    assert_eq!(l.outstanding_balance, 0);
    assert_eq!(l.status, LoanStatus::Repaid);
    assert_eq!(l.total_repaid, 1_200_000);
    assert_eq!(l.payments_made, 12);
}

#[test]
fn oracle_remittance_pays_one_installment_and_returns_residual() {
    let mut m = manager_with_active_loan();
    let residual = m.process_automatic_repayment(ORACLE, 1, 150_000).unwrap();
    assert_eq!(residual, 50_000);
    let l = m.get_loan(1).unwrap();
    assert_eq!(l.total_repaid, 100_000);
    assert_eq!(l.outstanding_balance, 916_600);
}

#[test]
fn oracle_remittance_below_installment_is_paid_whole() {
    let mut m = manager_with_active_loan();
    let residual = m.process_automatic_repayment(ORACLE, 1, 60_000).unwrap();
    assert_eq!(residual, 0);
    let l = m.get_loan(1).unwrap();
    assert_eq!(l.total_repaid, 60_000);
}

#[test]
fn oracle_remittance_by_non_oracle_fails_unauthorized() {
    let mut m = manager_with_active_loan();
    let before = m.get_loan(1).unwrap();
    assert_eq!(m.process_automatic_repayment(BORROWER, 1, 150_000), Err(LoanError::Unauthorized));
    assert_eq!(m.get_loan(1).unwrap(), before);
}

#[test]
fn oracle_remittance_rejects_non_positive_amount() {
    let mut m = manager_with_active_loan();
    assert_eq!(m.process_automatic_repayment(ORACLE, 1, 0), Err(LoanError::InvalidArgument));
    assert_eq!(m.process_automatic_repayment(ORACLE, 1, -1), Err(LoanError::InvalidArgument));
    assert_eq!(m.get_loan(1).unwrap().total_repaid, 0);
}

#[test]
fn oracle_remittance_on_missing_loan_fails_not_found() {
    let mut m = LoanManager::new(config());
    assert_eq!(m.process_automatic_repayment(ORACLE, 4, 150_000), Err(LoanError::NotFound));
}

#[test]
fn one_miss_keeps_loan_active_two_default_it() {
    let mut m = manager_with_active_loan();
    assert_eq!(m.mark_payment_missed(ORACLE, 1), Ok(()));
    let l1 = m.get_loan(1).unwrap();
    assert_eq!(l1.status, LoanStatus::Active);
    assert_eq!(l1.payments_missed, 1);
    assert_eq!(m.mark_payment_missed(ORACLE, 1), Ok(()));
    let l2 = m.get_loan(1).unwrap();
    assert_eq!(l2.status, LoanStatus::Defaulted);
    assert_eq!(l2.payments_missed, 2);
}

#[test]
fn miss_by_non_oracle_fails_unauthorized() {
    let mut m = manager_with_active_loan();
    let before = m.get_loan(1).unwrap();
    assert_eq!(m.mark_payment_missed(BORROWER, 1), Err(LoanError::Unauthorized));
    assert_eq!(m.get_loan(1).unwrap(), before);
}

#[test]
fn miss_on_missing_loan_fails_not_found() {
    let mut m = LoanManager::new(config());
    assert_eq!(m.mark_payment_missed(ORACLE, 8), Err(LoanError::NotFound));
}

#[test]
fn miss_on_pending_loan_fails_invalid_state() {
    let mut m = LoanManager::new(config());
    let id = m.request_loan(BORROWER, 5, 1_000_000, 12, 0).unwrap();
    assert_eq!(m.mark_payment_missed(ORACLE, id), Err(LoanError::InvalidState));
    assert_eq!(m.get_loan(id).unwrap().payments_missed, 0);
}

#[test]
fn miss_on_defaulted_loan_fails_invalid_state() {
    let mut m = manager_with_active_loan();
    m.mark_payment_missed(ORACLE, 1).unwrap();
    m.mark_payment_missed(ORACLE, 1).unwrap();
    assert_eq!(m.mark_payment_missed(ORACLE, 1), Err(LoanError::InvalidState));
    assert_eq!(m.get_loan(1).unwrap().payments_missed, 2);
}

#[test]
fn payment_on_defaulted_loan_fails_invalid_state() {
    let mut m = manager_with_active_loan();
    m.mark_payment_missed(ORACLE, 1).unwrap();
    m.mark_payment_missed(ORACLE, 1).unwrap();
    assert_eq!(m.make_payment(1, 100_000), Err(LoanError::InvalidState));
}

#[test]
fn per_record_transitions_match_the_engine() {
    let mut m = LoanManager::new(config());
    let id = m.request_loan(BORROWER, 5, 1_000_000, 12, 1_000).unwrap();
    let pending = m.get_loan(id).unwrap();
    let built = loan_manager::lifecycle::create_loan(1, BORROWER, 5, 1_000_000, 12, 1_000).unwrap();
    assert_eq!(built, pending);

    let approved = loan_manager::lifecycle::approve_record(pending).unwrap();
    m.approve_loan(id).unwrap();
    assert_eq!(approved, m.get_loan(id).unwrap());

    let (paid, receipt) = loan_manager::lifecycle::apply_payment(approved, 100_000).unwrap();
    m.make_payment(id, 100_000).unwrap();
    assert_eq!(paid, m.get_loan(id).unwrap());
    assert_eq!(receipt.interest_portion, 16_600);
    assert_eq!(receipt.principal_portion, 83_400);

    let (after_remit, _receipt, residual) =
        loan_manager::lifecycle::apply_remittance(paid, 150_000).unwrap();
    m.process_automatic_repayment(ORACLE, id, 150_000).unwrap();
    assert_eq!(after_remit, m.get_loan(id).unwrap());
    assert_eq!(residual, 50_000);

    let marked = loan_manager::lifecycle::record_missed_payment(after_remit).unwrap();
    m.mark_payment_missed(ORACLE, id).unwrap();
    assert_eq!(marked, m.get_loan(id).unwrap());
    assert_eq!(marked.payments_missed, 1);
    assert_eq!(marked.status, LoanStatus::Active);
}

#[test]
fn per_record_transitions_report_the_same_errors() {
    let mut m = LoanManager::new(config());
    let id = m.request_loan(BORROWER, 5, 1_000_000, 12, 0).unwrap();
    let pending = m.get_loan(id).unwrap();
    assert_eq!(
        loan_manager::lifecycle::create_loan(1, BORROWER, 5, 0, 12, 0),
        Err(LoanError::InvalidArgument)
    );
    assert_eq!(
        loan_manager::lifecycle::apply_payment(pending, 100_000),
        Err(LoanError::InvalidState)
    );
    assert_eq!(
        loan_manager::lifecycle::record_missed_payment(pending),
        Err(LoanError::InvalidState)
    );
    let active = loan_manager::lifecycle::approve_record(pending).unwrap();
    assert_eq!(
        loan_manager::lifecycle::approve_record(active),
        Err(LoanError::InvalidState)
    );
    assert_eq!(
        loan_manager::lifecycle::apply_remittance(active, 0),
        Err(LoanError::InvalidArgument)
    );
}

#[test]
fn get_loan_missing_fails_not_found() {
    let m = LoanManager::new(config());
    assert_eq!(m.get_loan(1), Err(LoanError::NotFound));
    assert_eq!(m.get_loan(0), Err(LoanError::NotFound));
}
