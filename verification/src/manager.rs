//! The executable lifecycle engine: the loan manager that owns the
//! registry and the set-once configuration, and applies every operation
//! exactly as the model in `lifecycle` describes.
//!
//! The engine itself performs no external effect. Callers authenticate
//! identities before handing them in, perform value transfers and
//! collateral staking around the calls, and settle with the capital pool
//! from the returned receipt.

use vstd::prelude::*;

verus! {

use crate::amortization;
use crate::errors::LoanError;
use crate::lifecycle;
use crate::lifecycle::loans_wf;
use crate::lifecycle::rate_for_collateral;
use crate::loan::Loan;
use crate::loan::PaymentReceipt;
use crate::loan::PAYMENT_PERIOD_SECONDS;
use crate::registry::borrower_loan_ids;
use crate::registry::has_loan;
use crate::registry::loan_of;
use crate::registry::LoanRegistry;
use vstd::arithmetic::mul::lemma_mul_nonnegative;

/// The set-once configuration: the identities of the four external
/// collaborators, fixed at construction and immutable thereafter.
#[derive(Clone, Copy, PartialEq, Eq, Structural, Debug)]
pub struct LoanConfig {
    /// The collateral registry holding the pledged assets.
    pub nft_contract: u64,
    /// The capital pool that funds loans and receives repayments.
    pub pool_contract: u64,
    /// The only identity allowed to report remittances and misses.
    pub oracle: u64,
    /// The settlement currency.
    pub usdc_token: u64,
}

/// The manager's abstract state: the loan records in creation order, and
/// the configuration.
pub struct ManagerView {
    pub loans: Seq<Loan>,
    pub config: LoanConfig,
}

/// The lifecycle engine. All operations are total functions from the
/// current state and the call's arguments to the next state and a result;
/// an error leaves the state unchanged.
pub struct LoanManager {
    config: LoanConfig,
    registry: LoanRegistry,
}

impl View for LoanManager {
    type V = ManagerView;

    closed spec fn view(&self) -> ManagerView {
        ManagerView { loans: self.registry@, config: self.config }
    }
}

impl LoanManager {
    /// The engine's invariant: the registry is internally consistent and
    /// every registered loan is well formed. Established by `new` and
    /// preserved by every operation.
    pub closed spec fn inv(&self) -> bool {
        self.registry.wf() && loans_wf(self@.loans)
    }

    /// A fresh engine with no loans, around the given collaborators.
    pub fn new(config: LoanConfig) -> (r: Self)
        ensures
            r.inv(),
            r@.config == config,
            r@.loans == Seq::<Loan>::empty(),
    {
        LoanManager { config, registry: LoanRegistry::new() }
    }

    /// The annual rate, in basis points, the rate policy assigns to a
    /// collateral asset.
    pub fn calculate_interest_rate(nft_id: u64) -> (r: u32)
        ensures
            r == rate_for_collateral(nft_id),
    {
        2000u32
    }

    /// The fixed monthly installment for the given terms, by simple
    /// interest: `(principal + principal * rate * months / 120000) /
    /// months`, truncating.
    pub fn calculate_monthly_payment(principal: i128, annual_rate_bps: u32, months: u32) -> (r:
        i128)
        requires
            principal >= 1,
            months >= 1,
            principal * annual_rate_bps * months <= i128::MAX,
            principal + amortization::total_interest(
                principal as int,
                annual_rate_bps as int,
                months as int,
            ) <= i128::MAX,
        ensures
            r == amortization::monthly_payment(
                principal as int,
                annual_rate_bps as int,
                months as int,
            ),
            r >= 0,
    {
        proof {
            lemma_mul_nonnegative(principal as int, annual_rate_bps as int);
            assert(principal * annual_rate_bps <= principal * annual_rate_bps * months)
                by (nonlinear_arith)
                requires
                    principal * annual_rate_bps >= 0,
                    months >= 1,
            ;
            amortization::lemma_monthly_payment_bounds(
                principal as int,
                annual_rate_bps as int,
                months as int,
            );
        }
        let p: u128 = principal as u128;
        let num: u128 = p * (annual_rate_bps as u128) * (months as u128);
        let total_interest: u128 = num / 120000;
        let total_repayment: u128 = p + total_interest;
        (total_repayment / (months as u128)) as i128
    }

    /// The interest owed for one month against an outstanding balance:
    /// `outstanding * (annual_rate_bps / 12) / 10000`, truncating.
    pub fn calculate_interest_portion(outstanding: i128, annual_rate_bps: u32) -> (r: i128)
        requires
            outstanding >= 0,
            outstanding * amortization::monthly_rate_bps(annual_rate_bps as int) <= i128::MAX,
        ensures
            r == amortization::interest_portion(outstanding as int, annual_rate_bps as int),
            r >= 0,
    {
        let monthly_rate_bps: u32 = annual_rate_bps / 12;
        let num: u128 = (outstanding as u128) * (monthly_rate_bps as u128);
        (num / 10000) as i128
    }

    /// Creates a loan in `Pending` under a fresh id: terms from the rate
    /// policy and the amortization calculator, balance at the full
    /// principal, indexed under its borrower. The caller must have
    /// authenticated the borrower identity. Rejects a non-positive amount
    /// or a zero duration.
    pub fn request_loan(
        &mut self,
        borrower: u64,
        nft_id: u64,
        amount: i128,
        duration_months: u32,
        now: u64,
    ) -> (r: Result<u64, LoanError>)
        requires
            old(self).inv(),
            old(self)@.loans.len() + 1 <= u64::MAX,
            now + PAYMENT_PERIOD_SECONDS <= u64::MAX,
            amount >= 1 && duration_months >= 1 ==> amount * rate_for_collateral(nft_id)
                * duration_months <= i128::MAX && amount + amortization::total_interest(
                amount as int,
                rate_for_collateral(nft_id) as int,
                duration_months as int,
            ) <= i128::MAX,
        ensures
            final(self).inv(),
            final(self)@.config == old(self)@.config,
            final(self)@.loans == lifecycle::spec_request(
                old(self)@.loans,
                borrower,
                nft_id,
                amount,
                duration_months,
                now,
            ).0,
            r == lifecycle::spec_request(
                old(self)@.loans,
                borrower,
                nft_id,
                amount,
                duration_months,
                now,
            ).1,
    {
        let loan_id: u64 = self.registry.next_id();
        match lifecycle::create_loan(loan_id, borrower, nft_id, amount, duration_months, now) {
            Err(e) => Err(e),
            Ok(loan) => {
                proof {
                    lifecycle::lemma_request_wf(
                        old(self)@.loans,
                        borrower,
                        nft_id,
                        amount,
                        duration_months,
                        now,
                    );
                }
                self.registry.put(loan);
                Ok(loan_id)
            },
        }
    }

    /// Moves a `Pending` loan to `Active`. The caller stakes the
    /// collateral and draws the principal from the pool around this call;
    /// any failure there must abort before the state is committed.
    pub fn approve_loan(&mut self, loan_id: u64) -> (r: Result<(), LoanError>)
        requires
            old(self).inv(),
        ensures
            final(self).inv(),
            final(self)@.config == old(self)@.config,
            final(self)@.loans == lifecycle::spec_approve(old(self)@.loans, loan_id).0,
            r == lifecycle::spec_approve(old(self)@.loans, loan_id).1,
    {
        let loan = match self.registry.get(loan_id) {
            Ok(l) => l,
            Err(e) => {
                return Err(e);
            },
        };
        match lifecycle::approve_record(loan) {
            Err(e) => Err(e),
            Ok(approved) => {
                proof {
                    lifecycle::lemma_approve_wf(old(self)@.loans, loan_id);
                }
                self.registry.update(approved);
                Ok(())
            },
        }
    }

    /// Applies a payment to an `Active` loan. The interest/principal
    /// split is computed against the balance before this payment, so the
    /// balance afterwards is `max(0, balance - principal portion)` and
    /// never negative; cumulative repayment and the payment counter only
    /// grow. A balance driven to zero makes the loan `Repaid`. The caller
    /// transfers the amount to the pool around this call and settles the
    /// returned split with it.
    pub fn make_payment(&mut self, loan_id: u64, amount: i128) -> (r: Result<
        PaymentReceipt,
        LoanError,
    >)
        requires
            old(self).inv(),
            lifecycle::spec_pay_fits(old(self)@.loans, loan_id, amount),
        ensures
            final(self).inv(),
            final(self)@.config == old(self)@.config,
            final(self)@.loans == lifecycle::spec_pay(old(self)@.loans, loan_id, amount).0,
            r == lifecycle::spec_pay(old(self)@.loans, loan_id, amount).1,
            r.is_ok() ==> loan_of(final(self)@.loans, loan_id).outstanding_balance
                == lifecycle::balance_after_payment(loan_of(old(self)@.loans, loan_id), amount)
                && loan_of(final(self)@.loans, loan_id).outstanding_balance >= 0,
            r.is_ok() ==> loan_of(final(self)@.loans, loan_id).total_repaid >= loan_of(
                old(self)@.loans,
                loan_id,
            ).total_repaid && loan_of(final(self)@.loans, loan_id).payments_made >= loan_of(
                old(self)@.loans,
                loan_id,
            ).payments_made,
    {
        let loan = match self.registry.get(loan_id) {
            Ok(l) => l,
            Err(e) => {
                return Err(e);
            },
        };
        match lifecycle::apply_payment(loan, amount) {
            Err(e) => Err(e),
            Ok((paid, receipt)) => {
                proof {
                    lifecycle::lemma_pay_wf(old(self)@.loans, loan_id, amount);
                }
                self.registry.update(paid);
                Ok(receipt)
            },
        }
    }

    /// Applies an oracle-reported remittance: at most one monthly
    /// installment goes to the loan as a payment, and the residual
    /// `remittance - payment` is returned for the recipient. Any caller
    /// other than the configured oracle is refused, with no mutation.
    pub fn process_automatic_repayment(
        &mut self,
        caller: u64,
        loan_id: u64,
        remittance_amount: i128,
    ) -> (r: Result<i128, LoanError>)
        requires
            old(self).inv(),
            lifecycle::spec_auto_pay_fits(old(self)@.loans, loan_id, remittance_amount),
        ensures
            final(self).inv(),
            final(self)@.config == old(self)@.config,
            final(self)@.loans == lifecycle::spec_auto_pay(
                old(self)@.loans,
                old(self)@.config.oracle,
                caller,
                loan_id,
                remittance_amount,
            ).0,
            r == lifecycle::spec_auto_pay(
                old(self)@.loans,
                old(self)@.config.oracle,
                caller,
                loan_id,
                remittance_amount,
            ).1,
            caller != old(self)@.config.oracle ==> r == Err::<i128, LoanError>(
                LoanError::Unauthorized,
            ) && final(self)@ == old(self)@,
    {
        if caller != self.config.oracle {
            return Err(LoanError::Unauthorized);
        }
        let loan = match self.registry.get(loan_id) {
            Ok(l) => l,
            Err(e) => {
                return Err(e);
            },
        };
        match lifecycle::apply_remittance(loan, remittance_amount) {
            Err(e) => Err(e),
            Ok((paid, _receipt, residual)) => {
                proof {
                    lifecycle::lemma_auto_pay_wf(
                        old(self)@.loans,
                        old(self)@.config.oracle,
                        caller,
                        loan_id,
                        remittance_amount,
                    );
                }
                self.registry.update(paid);
                Ok(residual)
            },
        }
    }

    /// Records an oracle-reported missed payment against an `Active`
    /// loan; the second miss defaults the loan. Any caller other than the
    /// configured oracle is refused, with no mutation.
    pub fn mark_payment_missed(&mut self, caller: u64, loan_id: u64) -> (r: Result<(), LoanError>)
        requires
            old(self).inv(),
        ensures
            final(self).inv(),
            final(self)@.config == old(self)@.config,
            final(self)@.loans == lifecycle::spec_mark_missed(
                old(self)@.loans,
                old(self)@.config.oracle,
                caller,
                loan_id,
            ).0,
            r == lifecycle::spec_mark_missed(
                old(self)@.loans,
                old(self)@.config.oracle,
                caller,
                loan_id,
            ).1,
            caller != old(self)@.config.oracle ==> r == Err::<(), LoanError>(
                LoanError::Unauthorized,
            ) && final(self)@ == old(self)@,
    {
        if caller != self.config.oracle {
            return Err(LoanError::Unauthorized);
        }
        let loan = match self.registry.get(loan_id) {
            Ok(l) => l,
            Err(e) => {
                return Err(e);
            },
        };
        match lifecycle::record_missed_payment(loan) {
            Err(e) => Err(e),
            Ok(marked) => {
                proof {
                    lifecycle::lemma_mark_missed_wf(
                        old(self)@.loans,
                        old(self)@.config.oracle,
                        caller,
                        loan_id,
                    );
                }
                self.registry.update(marked);
                Ok(())
            },
        }
    }

    /// Looks a loan up by id, read-only.
    pub fn get_loan(&self, loan_id: u64) -> (r: Result<Loan, LoanError>)
        ensures
            has_loan(self@.loans, loan_id) ==> r == Ok::<Loan, LoanError>(
                loan_of(self@.loans, loan_id),
            ),
            !has_loan(self@.loans, loan_id) ==> r == Err::<Loan, LoanError>(LoanError::NotFound),
    {
        self.registry.get(loan_id)
    }

    /// The ids of a borrower's loans, in creation order.
    pub fn loans_of(&self, borrower: u64) -> (r: Vec<u64>)
        requires
            self.inv(),
        ensures
            r@ == borrower_loan_ids(self@.loans, borrower),
    {
        self.registry.loans_of(borrower)
    }
}

} // verus!
