//! Amortization arithmetic: the fixed monthly installment of a loan and the
//! interest/principal attribution of a single payment.
//!
//! All interest uses simple (non-compounding) arithmetic over basis points
//! (1/100 of a percent), with integer division truncating; the basis points
//! lost when the annual rate is divided by 12 are an accepted approximation.

use vstd::prelude::*;

verus! {

use vstd::arithmetic::div_mod::lemma_div_pos_is_pos;
use vstd::arithmetic::div_mod::lemma_div_nonincreasing;
use vstd::arithmetic::mul::lemma_mul_nonnegative;
use vstd::arithmetic::mul::lemma_mul_inequality;

/// The per-month rate obtained from an annual rate, in basis points.
/// The remainder of the division by 12 is discarded by design.
pub open spec fn monthly_rate_bps(annual_rate_bps: int) -> int {
    annual_rate_bps / 12
}

/// Total simple interest owed over the whole term:
/// `principal * annual_rate_bps * months / (12 * 10000)`.
pub open spec fn total_interest(principal: int, annual_rate_bps: int, months: int) -> int {
    principal * annual_rate_bps * months / (12 * 10000int)
}

/// The fixed monthly installment: principal plus total interest, spread
/// evenly over the term, truncating. The last installment may therefore
/// leave a residual smaller than the installment, which payment
/// application clamps to zero.
pub open spec fn monthly_payment(principal: int, annual_rate_bps: int, months: int) -> int {
    (principal + total_interest(principal, annual_rate_bps, months)) / months
}

/// Interest owed for one month against an outstanding balance.
pub open spec fn interest_portion(outstanding: int, annual_rate_bps: int) -> int {
    outstanding * monthly_rate_bps(annual_rate_bps) / 10000
}

/// How much of a payment reduces principal: whatever exceeds the interest
/// portion. A payment not covering the interest reduces no principal at
/// all; the shortfall is absorbed as under-paid interest.
pub open spec fn principal_portion(amount: int, interest: int) -> int {
    if amount > interest {
        amount - interest
    } else {
        0
    }
}

/// For every valid principal, rate and term: the total interest is
/// non-negative, and the monthly installment never exceeds the total
/// repayment obligation `principal + total_interest`.
pub proof fn lemma_monthly_payment_bounds(principal: int, annual_rate_bps: int, months: int)
    requires
        principal >= 1,
        annual_rate_bps >= 0,
        months >= 1,
    ensures
        total_interest(principal, annual_rate_bps, months) >= 0,
        0 <= monthly_payment(principal, annual_rate_bps, months) <= principal + total_interest(
            principal,
            annual_rate_bps,
            months,
        ),
{
    lemma_mul_nonnegative(principal, annual_rate_bps);
    lemma_mul_nonnegative(principal * annual_rate_bps, months);
    lemma_div_pos_is_pos(principal * annual_rate_bps * months, 12 * 10000int);
    let ti = total_interest(principal, annual_rate_bps, months);
    lemma_div_pos_is_pos(principal + ti, months);
    lemma_div_nonincreasing(principal + ti, months);
}

/// The interest portion of one month is non-negative, and it is bounded
/// whenever the balance-times-rate product is.
pub proof fn lemma_interest_portion_bounds(outstanding: int, annual_rate_bps: int)
    requires
        outstanding >= 0,
        annual_rate_bps >= 0,
    ensures
        interest_portion(outstanding, annual_rate_bps) >= 0,
        outstanding * monthly_rate_bps(annual_rate_bps) <= outstanding * annual_rate_bps,
{
    lemma_div_pos_is_pos(annual_rate_bps, 12);
    lemma_mul_nonnegative(outstanding, monthly_rate_bps(annual_rate_bps));
    lemma_div_pos_is_pos(outstanding * monthly_rate_bps(annual_rate_bps), 10000);
    lemma_div_nonincreasing(annual_rate_bps, 12);
    lemma_mul_inequality(monthly_rate_bps(annual_rate_bps), annual_rate_bps, outstanding);
    vstd::arithmetic::mul::lemma_mul_is_commutative(outstanding, monthly_rate_bps(annual_rate_bps));
    vstd::arithmetic::mul::lemma_mul_is_commutative(outstanding, annual_rate_bps);
}

} // verus!
