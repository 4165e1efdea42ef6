use loan_manager::manager::LoanManager;

#[test]
fn monthly_payment_example_terms() {
    // 1_000_000 at 2000 bps over 12 months: total interest
    // 1_000_000 * 2000 * 12 / 120000 = 200_000, so (1_200_000)/12 = 100_000.
    assert_eq!(LoanManager::calculate_monthly_payment(1_000_000, 2000, 12), 100_000);
}

#[test]
fn monthly_payment_truncates() {
    // 1000 at 1200 bps over 7 months: interest 1000*1200*7/120000 = 70;
    // (1070)/7 = 152 with remainder discarded.
    assert_eq!(LoanManager::calculate_monthly_payment(1000, 1200, 7), 152);
}

#[test]
fn monthly_payment_zero_rate() {
    assert_eq!(LoanManager::calculate_monthly_payment(1200, 0, 12), 100);
}

#[test]
fn monthly_payment_small_principal_short_of_one_unit() {
    // 1 unit over 12 months rounds down to a zero installment.
    assert_eq!(LoanManager::calculate_monthly_payment(1, 2000, 12), 0);
}

#[test]
fn interest_portion_example_terms() {
    // 2000 bps yearly is 166 bps monthly (truncated);
    // 1_000_000 * 166 / 10000 = 16_600.
    assert_eq!(LoanManager::calculate_interest_portion(1_000_000, 2000), 16_600);
}

#[test]
fn interest_portion_truncates_rate_before_use() {
    // 1100 bps yearly truncates to 91 bps monthly, not 91.67.
    assert_eq!(LoanManager::calculate_interest_portion(10_000, 1100), 91);
}

#[test]
fn interest_portion_zero_balance() {
    assert_eq!(LoanManager::calculate_interest_portion(0, 2000), 0);
}

#[test]
fn interest_rate_policy_is_total_and_pure() {
    let a = LoanManager::calculate_interest_rate(1);
    let b = LoanManager::calculate_interest_rate(1);
    assert_eq!(a, b);
    assert_eq!(a, 2000);
    assert_eq!(LoanManager::calculate_interest_rate(u64::MAX), 2000);
}
