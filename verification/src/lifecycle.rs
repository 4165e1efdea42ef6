//! The lifecycle state machine as a mathematical model: one transition
//! function per operation, over the sequence of loan records. The
//! executable engine promises, operation by operation, that its state and
//! result are exactly these functions' values; the laws at the bottom are
//! proved once, about the model, and therefore hold of the engine.

use vstd::prelude::*;

verus! {

use crate::amortization;
use crate::errors::LoanError;
use crate::loan::Loan;
use crate::loan::LoanStatus;
use crate::loan::PaymentReceipt;
use crate::loan::PAYMENT_PERIOD_SECONDS;
use crate::registry::has_loan;
use crate::registry::loan_of;
use vstd::arithmetic::mul::lemma_mul_nonnegative;
use vstd::arithmetic::mul::lemma_mul_upper_bound;
use vstd::arithmetic::div_mod::lemma_div_pos_is_pos;
use vstd::arithmetic::div_mod::lemma_div_nonincreasing;

/// Every registered loan is well formed and sits at the position its id
/// names: ids are dense from 1, in creation order.
pub open spec fn loans_wf(loans: Seq<Loan>) -> bool {
    forall|i: int|
        0 <= i < loans.len() ==> (#[trigger] loans[i]).wf() && loans[i].loan_id == i + 1
}

/// The rate policy: a pure, total mapping from collateral id to an annual
/// rate in basis points. Every collateral id yields some rate, never an
/// error. Stubbed as a flat rate; any other pure, total policy can replace
/// the body without touching the lifecycle engine.
pub open spec fn rate_for_collateral(nft_collateral_id: u64) -> u32 {
    2000u32
}

/// The record a request creates: balance at the full principal, terms
/// from the rate policy and the amortization calculator, status `Pending`.
pub open spec fn requested_loan(
    loan_id: u64,
    borrower: u64,
    nft_id: u64,
    amount: i128,
    duration_months: u32,
    now: u64,
) -> Loan {
    let rate = rate_for_collateral(nft_id);
    Loan {
        loan_id,
        borrower,
        nft_collateral_id: nft_id,
        loan_amount: amount,
        outstanding_balance: amount,
        total_repaid: 0,
        interest_rate: rate,
        duration_months,
        monthly_payment: amortization::monthly_payment(
            amount as int,
            rate as int,
            duration_months as int,
        ) as i128,
        start_timestamp: now,
        next_payment_due: (now + PAYMENT_PERIOD_SECONDS) as u64,
        status: LoanStatus::Pending,
        payments_made: 0,
        payments_missed: 0,
    }
}

/// Requesting a loan: a non-positive amount or zero duration is rejected
/// outright; otherwise the new record is appended under the next id.
pub open spec fn spec_request(
    loans: Seq<Loan>,
    borrower: u64,
    nft_id: u64,
    amount: i128,
    duration_months: u32,
    now: u64,
) -> (Seq<Loan>, Result<u64, LoanError>) {
    if amount <= 0 || duration_months == 0 {
        (loans, Err(LoanError::InvalidArgument))
    } else {
        (
            loans.push(
                requested_loan(
                    (loans.len() + 1) as u64,
                    borrower,
                    nft_id,
                    amount,
                    duration_months,
                    now,
                ),
            ),
            Ok((loans.len() + 1) as u64),
        )
    }
}

/// Approving a loan: only a `Pending` loan moves to `Active`; anything
/// else fails without touching the state.
pub open spec fn spec_approve(loans: Seq<Loan>, loan_id: u64) -> (
    Seq<Loan>,
    Result<(), LoanError>,
) {
    if !has_loan(loans, loan_id) {
        (loans, Err(LoanError::NotFound))
    } else if loan_of(loans, loan_id).status != LoanStatus::Pending {
        (loans, Err(LoanError::InvalidState))
    } else {
        (
            loans.update(loan_id - 1, Loan { status: LoanStatus::Active, ..loan_of(loans, loan_id) }),
            Ok(()),
        )
    }
}

/// The balance a payment leaves behind: `max(0, balance - principal
/// portion)`, the interest/principal split computed against the balance
/// before the payment is applied.
pub open spec fn balance_after_payment(l: Loan, amount: i128) -> int {
    let interest = amortization::interest_portion(
        l.outstanding_balance as int,
        l.interest_rate as int,
    );
    let pp = amortization::principal_portion(amount as int, interest);
    if pp >= l.outstanding_balance {
        0
    } else {
        l.outstanding_balance - pp
    }
}

/// The record one applied payment leaves: cumulative repayment and the
/// payment counter grow, the due date advances one 30-day period, and a
/// balance driven to zero makes the loan `Repaid`.
pub open spec fn paid_loan(l: Loan, amount: i128) -> Loan {
    let interest = amortization::interest_portion(
        l.outstanding_balance as int,
        l.interest_rate as int,
    );
    let pp = amortization::principal_portion(amount as int, interest);
    Loan {
        total_repaid: (l.total_repaid + amount) as i128,
        outstanding_balance: balance_after_payment(l, amount) as i128,
        payments_made: (l.payments_made + 1) as u32,
        next_payment_due: (l.next_payment_due + PAYMENT_PERIOD_SECONDS) as u64,
        status: if pp >= l.outstanding_balance {
            LoanStatus::Repaid
        } else {
            LoanStatus::Active
        },
        ..l
    }
}

/// What the payment was attributed to, for settling with the pool.
pub open spec fn payment_receipt_of(l: Loan, amount: i128) -> PaymentReceipt {
    let interest = amortization::interest_portion(
        l.outstanding_balance as int,
        l.interest_rate as int,
    );
    let pp = amortization::principal_portion(amount as int, interest);
    PaymentReceipt { interest_portion: interest as i128, principal_portion: pp as i128 }
}

/// Paying a loan: only an `Active` loan with a positive amount; the split
/// is computed against the pre-payment balance.
pub open spec fn spec_pay(loans: Seq<Loan>, loan_id: u64, amount: i128) -> (
    Seq<Loan>,
    Result<PaymentReceipt, LoanError>,
) {
    if !has_loan(loans, loan_id) {
        (loans, Err(LoanError::NotFound))
    } else if loan_of(loans, loan_id).status != LoanStatus::Active {
        (loans, Err(LoanError::InvalidState))
    } else if amount <= 0 {
        (loans, Err(LoanError::InvalidArgument))
    } else {
        let l = loan_of(loans, loan_id);
        (loans.update(loan_id - 1, paid_loan(l, amount)), Ok(payment_receipt_of(l, amount)))
    }
}

/// The machine limits under which a payment applies to one record
/// without overflow: three counters must have room to grow.
pub open spec fn pay_fits(l: Loan, amount: i128) -> bool {
    (l.status == LoanStatus::Active && amount > 0) ==> {
        &&& l.total_repaid + amount <= i128::MAX
        &&& l.payments_made + 1 <= u32::MAX
        &&& l.next_payment_due + PAYMENT_PERIOD_SECONDS <= u64::MAX
    }
}

/// The same machine limits, read off the registered record.
pub open spec fn spec_pay_fits(loans: Seq<Loan>, loan_id: u64, amount: i128) -> bool {
    has_loan(loans, loan_id) ==> pay_fits(loan_of(loans, loan_id), amount)
}

/// How much of a reported remittance goes to the loan: one monthly
/// installment, or the whole remittance if it falls short of one.
pub open spec fn auto_payment_amount(l: Loan, remittance_amount: i128) -> i128 {
    if remittance_amount >= l.monthly_payment {
        l.monthly_payment
    } else {
        remittance_amount
    }
}

/// An oracle-reported remittance: after the capability check, at most one
/// monthly installment is applied as a payment and the rest is returned
/// as the residual owed to the recipient.
pub open spec fn spec_auto_pay(
    loans: Seq<Loan>,
    oracle: u64,
    caller: u64,
    loan_id: u64,
    remittance_amount: i128,
) -> (Seq<Loan>, Result<i128, LoanError>) {
    if caller != oracle {
        (loans, Err(LoanError::Unauthorized))
    } else if !has_loan(loans, loan_id) {
        (loans, Err(LoanError::NotFound))
    } else if remittance_amount <= 0 {
        (loans, Err(LoanError::InvalidArgument))
    } else {
        let payment = auto_payment_amount(loan_of(loans, loan_id), remittance_amount);
        let step = spec_pay(loans, loan_id, payment);
        match step.1 {
            Ok(receipt) => (step.0, Ok((remittance_amount - payment) as i128)),
            Err(e) => (step.0, Err(e)),
        }
    }
}

/// The machine limits for an oracle-reported remittance: those of the
/// payment it delegates.
pub open spec fn spec_auto_pay_fits(loans: Seq<Loan>, loan_id: u64, remittance_amount: i128) -> bool {
    has_loan(loans, loan_id) ==> spec_pay_fits(
        loans,
        loan_id,
        auto_payment_amount(loan_of(loans, loan_id), remittance_amount),
    )
}

/// An oracle-reported missed payment: after the capability check, the
/// missed counter of an `Active` loan grows by one, and reaching 2
/// defaults the loan.
pub open spec fn spec_mark_missed(loans: Seq<Loan>, oracle: u64, caller: u64, loan_id: u64) -> (
    Seq<Loan>,
    Result<(), LoanError>,
) {
    if caller != oracle {
        (loans, Err(LoanError::Unauthorized))
    } else if !has_loan(loans, loan_id) {
        (loans, Err(LoanError::NotFound))
    } else if loan_of(loans, loan_id).status != LoanStatus::Active {
        (loans, Err(LoanError::InvalidState))
    } else {
        (loans.update(loan_id - 1, missed_loan(loan_of(loans, loan_id))), Ok(()))
    }
}

/// A request preserves well-formedness whenever its arithmetic fits.
pub proof fn lemma_request_wf(
    loans: Seq<Loan>,
    borrower: u64,
    nft_id: u64,
    amount: i128,
    duration_months: u32,
    now: u64,
)
    requires
        loans_wf(loans),
        loans.len() + 1 <= u64::MAX,
        now + PAYMENT_PERIOD_SECONDS <= u64::MAX,
        amount >= 1 && duration_months >= 1 ==> amount * rate_for_collateral(nft_id)
            * duration_months <= i128::MAX && amount + amortization::total_interest(
            amount as int,
            rate_for_collateral(nft_id) as int,
            duration_months as int,
        ) <= i128::MAX,
    ensures
        loans_wf(spec_request(loans, borrower, nft_id, amount, duration_months, now).0),
{
    if amount >= 1 && duration_months >= 1 {
        let rate = rate_for_collateral(nft_id) as int;
        let a = amount as int;
        let d = duration_months as int;
        lemma_mul_nonnegative(a, rate);
        assert(a * rate * d >= a * rate) by (nonlinear_arith)
            requires
                a * rate >= 0,
                d >= 1,
        ;
        amortization::lemma_monthly_payment_bounds(a, rate, d);
        let l = requested_loan(
            (loans.len() + 1) as u64,
            borrower,
            nft_id,
            amount,
            duration_months,
            now,
        );
        assert(l.wf());
        let loans2 = spec_request(loans, borrower, nft_id, amount, duration_months, now).0;
        assert forall|i: int|
            0 <= i < loans2.len() implies (#[trigger] loans2[i]).wf() && loans2[i].loan_id == i
            + 1 by {
            if i < loans.len() {
                assert(loans2[i] == loans[i]);
            } else {
                assert(loans2[i] == l);
            }
        }
    }
}

/// An approval preserves well-formedness.
pub proof fn lemma_approve_wf(loans: Seq<Loan>, loan_id: u64)
    requires
        loans_wf(loans),
    ensures
        loans_wf(spec_approve(loans, loan_id).0),
{
    let loans2 = spec_approve(loans, loan_id).0;
    if has_loan(loans, loan_id) && loan_of(loans, loan_id).status == LoanStatus::Pending {
        assert forall|i: int|
            0 <= i < loans2.len() implies (#[trigger] loans2[i]).wf() && loans2[i].loan_id == i
            + 1 by {
            if i != loan_id - 1 {
                assert(loans2[i] == loans[i]);
            } else {
                assert(loans[i].wf());
            }
        }
    }
}

/// An applied payment preserves well-formedness whenever its arithmetic
/// fits: the balance stays in `[0, principal]`, a repaid loan ends at
/// exactly zero, and an active one keeps a positive balance.
pub proof fn lemma_pay_wf(loans: Seq<Loan>, loan_id: u64, amount: i128)
    requires
        loans_wf(loans),
        spec_pay_fits(loans, loan_id, amount),
    ensures
        loans_wf(spec_pay(loans, loan_id, amount).0),
{
    let loans2 = spec_pay(loans, loan_id, amount).0;
    if has_loan(loans, loan_id) && loan_of(loans, loan_id).status == LoanStatus::Active && amount
        > 0 {
        let l = loan_of(loans, loan_id);
        assert(l.wf());
        lemma_interest_in_range(l);
        let l2 = paid_loan(l, amount);
        assert(l2.wf());
        assert forall|i: int|
            0 <= i < loans2.len() implies (#[trigger] loans2[i]).wf() && loans2[i].loan_id == i
            + 1 by {
            if i != loan_id - 1 {
                assert(loans2[i] == loans[i]);
            }
        }
    }
}

/// For a well-formed loan, one month's interest is non-negative and the
/// balance-times-monthly-rate product stays within the signed 128-bit
/// range.
pub proof fn lemma_interest_in_range(l: Loan)
    requires
        l.wf(),
    ensures
        0 <= amortization::interest_portion(l.outstanding_balance as int, l.interest_rate as int),
        l.outstanding_balance * amortization::monthly_rate_bps(l.interest_rate as int)
            <= i128::MAX,
{
    let bal = l.outstanding_balance as int;
    let rate = l.interest_rate as int;
    let mr = amortization::monthly_rate_bps(rate);
    amortization::lemma_interest_portion_bounds(bal, rate);
    lemma_div_pos_is_pos(rate, 12);
    lemma_div_nonincreasing(rate, 12);
    lemma_mul_upper_bound(bal, l.loan_amount as int, mr, rate);
}

/// A missed-payment report preserves well-formedness: the counter of an
/// active loan was at most 1, so the increment fits, and reaching 2 moves
/// the loan to `Defaulted`.
pub proof fn lemma_mark_missed_wf(loans: Seq<Loan>, oracle: u64, caller: u64, loan_id: u64)
    requires
        loans_wf(loans),
    ensures
        loans_wf(spec_mark_missed(loans, oracle, caller, loan_id).0),
{
    let loans2 = spec_mark_missed(loans, oracle, caller, loan_id).0;
    if caller == oracle && has_loan(loans, loan_id) && loan_of(loans, loan_id).status
        == LoanStatus::Active {
        let l = loan_of(loans, loan_id);
        assert(l.wf());
        assert forall|i: int|
            0 <= i < loans2.len() implies (#[trigger] loans2[i]).wf() && loans2[i].loan_id == i
            + 1 by {
            if i != loan_id - 1 {
                assert(loans2[i] == loans[i]);
            }
        }
    }
}

/// Approval is idempotent in its failure: once a loan is approved, a
/// second approval of the same loan fails `InvalidState` and leaves the
/// state — in particular the status and the outstanding balance —
/// unchanged.
pub proof fn lemma_approve_twice(loans: Seq<Loan>, loan_id: u64)
    requires
        loans_wf(loans),
        spec_approve(loans, loan_id).1 == Ok::<(), LoanError>(()),
    ensures
        ({
            let loans1 = spec_approve(loans, loan_id).0;
            let step2 = spec_approve(loans1, loan_id);
            &&& step2.1 == Err::<(), LoanError>(LoanError::InvalidState)
            &&& step2.0 == loans1
            &&& loan_of(step2.0, loan_id).status == loan_of(loans1, loan_id).status
            &&& loan_of(step2.0, loan_id).outstanding_balance == loan_of(
                loans1,
                loan_id,
            ).outstanding_balance
        }),
{
}

/// One applied payment never shrinks any loan's cumulative repayment or
/// payment counter.
pub proof fn lemma_pay_monotonic_step(loans: Seq<Loan>, loan_id: u64, amount: i128)
    requires
        loans_wf(loans),
        spec_pay_fits(loans, loan_id, amount),
    ensures
        ({
            let loans2 = spec_pay(loans, loan_id, amount).0;
            &&& loans2.len() == loans.len()
            &&& forall|id: u64|
                has_loan(loans, id) ==> (#[trigger] loan_of(loans2, id)).total_repaid >= loan_of(
                    loans,
                    id,
                ).total_repaid && loan_of(loans2, id).payments_made >= loan_of(
                    loans,
                    id,
                ).payments_made
        }),
{
    let loans2 = spec_pay(loans, loan_id, amount).0;
    if has_loan(loans, loan_id) && loan_of(loans, loan_id).status == LoanStatus::Active && amount
        > 0 {
        let l = loan_of(loans, loan_id);
        assert(l.wf());
        assert forall|id: u64|
            has_loan(loans, id) implies (#[trigger] loan_of(loans2, id)).total_repaid >= loan_of(
            loans,
            id,
        ).total_repaid && loan_of(loans2, id).payments_made >= loan_of(
            loans,
            id,
        ).payments_made by {
            if id == loan_id {
                assert(loan_of(loans2, id) == paid_loan(l, amount));
            } else {
                assert(loan_of(loans2, id) == loan_of(loans, id));
            }
        }
    }
}

/// The state after a whole sequence of payments, applied first to last.
pub open spec fn spec_pay_sequence(loans: Seq<Loan>, loan_id: u64, amounts: Seq<i128>) -> Seq<Loan>
    decreases amounts.len(),
{
    if amounts.len() == 0 {
        loans
    } else {
        spec_pay_sequence(spec_pay(loans, loan_id, amounts[0]).0, loan_id, amounts.drop_first())
    }
}

/// The machine limits of every payment in the sequence, each against the
/// state its predecessors left.
pub open spec fn spec_pay_sequence_fits(loans: Seq<Loan>, loan_id: u64, amounts: Seq<i128>) -> bool
    decreases amounts.len(),
{
    amounts.len() == 0 || (spec_pay_fits(loans, loan_id, amounts[0]) && spec_pay_sequence_fits(
        spec_pay(loans, loan_id, amounts[0]).0,
        loan_id,
        amounts.drop_first(),
    ))
}

/// Across any sequence of payment calls — successful or failed — no
/// loan's cumulative repayment or payment counter ever decreases.
pub proof fn lemma_pay_sequence_monotonic(loans: Seq<Loan>, loan_id: u64, amounts: Seq<i128>)
    requires
        loans_wf(loans),
        spec_pay_sequence_fits(loans, loan_id, amounts),
    ensures
        loans_wf(spec_pay_sequence(loans, loan_id, amounts)),
        spec_pay_sequence(loans, loan_id, amounts).len() == loans.len(),
        forall|id: u64|
            has_loan(loans, id) ==> (#[trigger] loan_of(
                spec_pay_sequence(loans, loan_id, amounts),
                id,
            )).total_repaid >= loan_of(loans, id).total_repaid && loan_of(
                spec_pay_sequence(loans, loan_id, amounts),
                id,
            ).payments_made >= loan_of(loans, id).payments_made,
    decreases amounts.len(),
{
    if amounts.len() > 0 {
        let loans1 = spec_pay(loans, loan_id, amounts[0]).0;
        lemma_pay_monotonic_step(loans, loan_id, amounts[0]);
        lemma_pay_wf(loans, loan_id, amounts[0]);
        lemma_pay_sequence_monotonic(loans1, loan_id, amounts.drop_first());
    }
}

/// The default threshold: the first missed-payment report against an
/// active loan with no prior misses leaves it `Active`; the second
/// defaults it.
pub proof fn lemma_default_threshold(loans: Seq<Loan>, oracle: u64, loan_id: u64)
    requires
        loans_wf(loans),
        has_loan(loans, loan_id),
        loan_of(loans, loan_id).status == LoanStatus::Active,
        loan_of(loans, loan_id).payments_missed == 0,
    ensures
        ({
            let step1 = spec_mark_missed(loans, oracle, oracle, loan_id);
            let step2 = spec_mark_missed(step1.0, oracle, oracle, loan_id);
            &&& step1.1 == Ok::<(), LoanError>(())
            &&& loan_of(step1.0, loan_id).status == LoanStatus::Active
            &&& loan_of(step1.0, loan_id).payments_missed == 1
            &&& step2.1 == Ok::<(), LoanError>(())
            &&& loan_of(step2.0, loan_id).status == LoanStatus::Defaulted
            &&& loan_of(step2.0, loan_id).payments_missed == 2
        }),
{
}

/// Builds the record a loan request creates, under the given fresh id:
/// terms from the rate policy and the amortization calculator, balance at
/// the full principal, status `Pending`. Rejects a non-positive amount or
/// a zero duration.
pub fn create_loan(
    loan_id: u64,
    borrower: u64,
    nft_id: u64,
    amount: i128,
    duration_months: u32,
    now: u64,
) -> (r: Result<Loan, LoanError>)
    requires
        loan_id >= 1,
        now + PAYMENT_PERIOD_SECONDS <= u64::MAX,
        amount >= 1 && duration_months >= 1 ==> amount * rate_for_collateral(nft_id)
            * duration_months <= i128::MAX && amount + amortization::total_interest(
            amount as int,
            rate_for_collateral(nft_id) as int,
            duration_months as int,
        ) <= i128::MAX,
    ensures
        amount <= 0 || duration_months == 0 ==> r == Err::<Loan, LoanError>(
            LoanError::InvalidArgument,
        ),
        amount >= 1 && duration_months >= 1 ==> r == Ok::<Loan, LoanError>(
            requested_loan(loan_id, borrower, nft_id, amount, duration_months, now),
        ) && requested_loan(loan_id, borrower, nft_id, amount, duration_months, now).wf(),
{
    if amount <= 0 || duration_months == 0 {
        return Err(LoanError::InvalidArgument);
    }
    proof {
        let rate = rate_for_collateral(nft_id) as int;
        let a = amount as int;
        let d = duration_months as int;
        lemma_mul_nonnegative(a, rate);
        assert(a * rate * d >= a * rate) by (nonlinear_arith)
            requires
                a * rate >= 0,
                d >= 1,
        ;
        amortization::lemma_monthly_payment_bounds(a, rate, d);
    }
    let rate: u32 = crate::manager::LoanManager::calculate_interest_rate(nft_id);
    let monthly_payment: i128 = crate::manager::LoanManager::calculate_monthly_payment(
        amount,
        rate,
        duration_months,
    );
    Ok(
        Loan {
            loan_id,
            borrower,
            nft_collateral_id: nft_id,
            loan_amount: amount,
            outstanding_balance: amount,
            total_repaid: 0,
            interest_rate: rate,
            duration_months,
            monthly_payment,
            start_timestamp: now,
            next_payment_due: now + PAYMENT_PERIOD_SECONDS,
            status: LoanStatus::Pending,
            payments_made: 0,
            payments_missed: 0,
        },
    )
}

/// Moves one `Pending` record to `Active`; any other status fails
/// `InvalidState` unchanged.
pub fn approve_record(l: Loan) -> (r: Result<Loan, LoanError>)
    requires
        l.wf(),
    ensures
        l.status == LoanStatus::Pending ==> r == Ok::<Loan, LoanError>(
            Loan { status: LoanStatus::Active, ..l },
        ) && r.unwrap().wf(),
        l.status != LoanStatus::Pending ==> r == Err::<Loan, LoanError>(LoanError::InvalidState),
{
    if l.status != LoanStatus::Pending {
        return Err(LoanError::InvalidState);
    }
    let mut l2 = l;
    l2.status = LoanStatus::Active;
    Ok(l2)
}

/// Applies one payment to one `Active` record: the interest/principal
/// split is computed against the balance before the payment, the balance
/// becomes `max(0, balance - principal portion)` — never negative — the
/// cumulative repayment and payment counter grow, the due date advances
/// one 30-day period, and a balance driven to zero makes the record
/// `Repaid`.
pub fn apply_payment(l: Loan, amount: i128) -> (r: Result<(Loan, PaymentReceipt), LoanError>)
    requires
        l.wf(),
        pay_fits(l, amount),
    ensures
        l.status != LoanStatus::Active ==> r == Err::<(Loan, PaymentReceipt), LoanError>(
            LoanError::InvalidState,
        ),
        l.status == LoanStatus::Active && amount <= 0 ==> r == Err::<
            (Loan, PaymentReceipt),
            LoanError,
        >(LoanError::InvalidArgument),
        l.status == LoanStatus::Active && amount > 0 ==> r == Ok::<
            (Loan, PaymentReceipt),
            LoanError,
        >((paid_loan(l, amount), payment_receipt_of(l, amount))) && paid_loan(l, amount).wf()
            && paid_loan(l, amount).outstanding_balance == balance_after_payment(l, amount),
{
    if l.status != LoanStatus::Active {
        return Err(LoanError::InvalidState);
    }
    if amount <= 0 {
        return Err(LoanError::InvalidArgument);
    }
    proof {
        lemma_interest_in_range(l);
        lemma_paid_loan_wf(l, amount);
    }
    let interest_portion: i128 = crate::manager::LoanManager::calculate_interest_portion(
        l.outstanding_balance,
        l.interest_rate,
    );
    let principal_portion: i128 = if amount > interest_portion {
        amount - interest_portion
    } else {
        0
    };
    let mut l2 = l;
    l2.total_repaid = l2.total_repaid + amount;
    l2.outstanding_balance = if principal_portion >= l2.outstanding_balance {
        0
    } else {
        l2.outstanding_balance - principal_portion
    };
    l2.payments_made = l2.payments_made + 1;
    l2.next_payment_due = l2.next_payment_due + PAYMENT_PERIOD_SECONDS;
    if l2.outstanding_balance == 0 {
        l2.status = LoanStatus::Repaid;
    }
    Ok((l2, PaymentReceipt { interest_portion, principal_portion }))
}

/// Applies an oracle-reported remittance to one record: at most one
/// monthly installment goes to the loan as a payment, and the rest is
/// returned as the residual owed to the recipient. The capability check
/// on the reporter stays with the caller.
pub fn apply_remittance(l: Loan, remittance_amount: i128) -> (r: Result<
    (Loan, PaymentReceipt, i128),
    LoanError,
>)
    requires
        l.wf(),
        pay_fits(l, auto_payment_amount(l, remittance_amount)),
    ensures
        remittance_amount <= 0 ==> r == Err::<(Loan, PaymentReceipt, i128), LoanError>(
            LoanError::InvalidArgument,
        ),
        remittance_amount > 0 ==> ({
            let payment = auto_payment_amount(l, remittance_amount);
            match spec_pay_step(l, payment) {
                Ok(l2) => r == Ok::<(Loan, PaymentReceipt, i128), LoanError>(
                    (l2, payment_receipt_of(l, payment), (remittance_amount - payment) as i128),
                ),
                Err(e) => r == Err::<(Loan, PaymentReceipt, i128), LoanError>(e),
            }
        }),
{
    if remittance_amount <= 0 {
        return Err(LoanError::InvalidArgument);
    }
    proof {
        amortization::lemma_monthly_payment_bounds(
            l.loan_amount as int,
            l.interest_rate as int,
            l.duration_months as int,
        );
    }
    let payment_amount: i128 = if remittance_amount >= l.monthly_payment {
        l.monthly_payment
    } else {
        remittance_amount
    };
    match apply_payment(l, payment_amount) {
        Ok((l2, receipt)) => Ok((l2, receipt, remittance_amount - payment_amount)),
        Err(e) => Err(e),
    }
}

/// What one payment does to one record, as a result: the new record, or
/// the error the payment fails with.
pub open spec fn spec_pay_step(l: Loan, amount: i128) -> Result<Loan, LoanError> {
    if l.status != LoanStatus::Active {
        Err(LoanError::InvalidState)
    } else if amount <= 0 {
        Err(LoanError::InvalidArgument)
    } else {
        Ok(paid_loan(l, amount))
    }
}

/// Records one missed payment against one `Active` record; the second
/// miss defaults it. Any other status fails `InvalidState` unchanged. The
/// capability check on the reporter stays with the caller.
pub fn record_missed_payment(l: Loan) -> (r: Result<Loan, LoanError>)
    requires
        l.wf(),
    ensures
        l.status != LoanStatus::Active ==> r == Err::<Loan, LoanError>(LoanError::InvalidState),
        l.status == LoanStatus::Active ==> r == Ok::<Loan, LoanError>(missed_loan(l))
            && missed_loan(l).wf(),
{
    if l.status != LoanStatus::Active {
        return Err(LoanError::InvalidState);
    }
    let mut l2 = l;
    l2.payments_missed = l2.payments_missed + 1;
    if l2.payments_missed >= 2 {
        l2.status = LoanStatus::Defaulted;
    }
    Ok(l2)
}

/// The record a missed-payment report leaves behind.
pub open spec fn missed_loan(l: Loan) -> Loan {
    let missed = (l.payments_missed + 1) as u32;
    Loan {
        payments_missed: missed,
        status: if missed >= 2 {
            LoanStatus::Defaulted
        } else {
            l.status
        },
        ..l
    }
}

/// One applied payment leaves one well-formed record well formed.
pub proof fn lemma_paid_loan_wf(l: Loan, amount: i128)
    requires
        l.wf(),
        l.status == LoanStatus::Active,
        amount > 0,
        pay_fits(l, amount),
    ensures
        paid_loan(l, amount).wf(),
{
    lemma_interest_in_range(l);
}

/// An oracle-reported remittance preserves well-formedness.
pub proof fn lemma_auto_pay_wf(
    loans: Seq<Loan>,
    oracle: u64,
    caller: u64,
    loan_id: u64,
    remittance_amount: i128,
)
    requires
        loans_wf(loans),
        spec_auto_pay_fits(loans, loan_id, remittance_amount),
    ensures
        loans_wf(spec_auto_pay(loans, oracle, caller, loan_id, remittance_amount).0),
{
    if caller == oracle && has_loan(loans, loan_id) && remittance_amount > 0 {
        let payment = auto_payment_amount(loan_of(loans, loan_id), remittance_amount);
        lemma_pay_wf(loans, loan_id, payment);
    }
}

} // verus!
