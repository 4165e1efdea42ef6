//! The loan record and its resting-state invariant.

use vstd::prelude::*;

verus! {

use crate::amortization;

/// Lifecycle states. Transitions run only forward along
/// `Pending -> Active -> {Repaid, Defaulted}`; the last two are terminal.
#[derive(Clone, Copy, PartialEq, Eq, Structural, Debug)]
pub enum LoanStatus {
    Pending,
    Active,
    Repaid,
    Defaulted,
}

/// One loan's full state. Identities (borrower, collateral) are plain
/// numeric identifiers; amounts are in the smallest currency unit.
#[derive(Clone, Copy, PartialEq, Eq, Structural, Debug)]
pub struct Loan {
    /// Unique, monotonically increasing; assigned once, never reused.
    pub loan_id: u64,
    /// The debtor's identity; immutable after creation.
    pub borrower: u64,
    /// The pledged asset; immutable after creation.
    pub nft_collateral_id: u64,
    /// Original principal; immutable after creation.
    pub loan_amount: i128,
    /// Remaining principal owed; starts at the principal, never negative.
    pub outstanding_balance: i128,
    /// Cumulative sum of all amounts ever paid in; never decreases.
    pub total_repaid: i128,
    /// Annual rate in basis points; fixed at creation.
    pub interest_rate: u32,
    /// Term length in months; immutable after creation.
    pub duration_months: u32,
    /// The fixed installment computed at creation; immutable.
    pub monthly_payment: i128,
    /// When the loan was requested.
    pub start_timestamp: u64,
    /// Advances by exactly one 30-day period per recorded payment.
    pub next_payment_due: u64,
    pub status: LoanStatus,
    /// Successful payments recorded; never decreases.
    pub payments_made: u32,
    /// Missed payments reported; never decreases. Reaching 2 defaults.
    pub payments_missed: u32,
}

/// Seconds in one 30-day payment period.
pub const PAYMENT_PERIOD_SECONDS: u64 = 2592000;

impl Loan {
    /// The invariant every loan satisfies at rest, after every operation.
    pub open spec fn wf(self) -> bool {
        &&& self.loan_id >= 1
        &&& self.loan_amount >= 1
        &&& 0 <= self.outstanding_balance <= self.loan_amount
        &&& self.total_repaid >= 0
        &&& self.duration_months >= 1
        &&& self.monthly_payment == amortization::monthly_payment(
            self.loan_amount as int,
            self.interest_rate as int,
            self.duration_months as int,
        )
        &&& self.loan_amount * self.interest_rate <= i128::MAX
        &&& self.status == LoanStatus::Pending ==> {
            &&& self.outstanding_balance == self.loan_amount
            &&& self.total_repaid == 0
            &&& self.payments_made == 0
            &&& self.payments_missed == 0
        }
        &&& self.status == LoanStatus::Active ==> self.outstanding_balance >= 1
            && self.payments_missed <= 1
        &&& self.status == LoanStatus::Repaid ==> self.outstanding_balance == 0
        &&& self.payments_missed >= 2 ==> self.status == LoanStatus::Defaulted
    }
}

/// What one applied payment did: how much of it was attributed to
/// interest and how much reduced principal. Handed back so a caller can
/// settle with the capital pool.
#[derive(Clone, Copy, PartialEq, Eq, Structural, Debug)]
pub struct PaymentReceipt {
    pub interest_portion: i128,
    pub principal_portion: i128,
}

} // verus!
