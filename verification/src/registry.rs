//! The loan registry: owns the mapping from loan id to loan record and
//! from borrower to that borrower's loan ids, and issues fresh ids.
//!
//! Ids are issued densely starting at 1, so the record for id `i` sits at
//! position `i - 1`; id 0 is never issued and no id is ever reused.

use vstd::prelude::*;

verus! {

use crate::errors::LoanError;
use crate::loan::Loan;

/// A loan id is registered when it lies in the dense range issued so far.
pub open spec fn has_loan(loans: Seq<Loan>, loan_id: u64) -> bool {
    1 <= loan_id <= loans.len()
}

/// The record registered under a loan id.
pub open spec fn loan_of(loans: Seq<Loan>, loan_id: u64) -> Loan {
    loans[loan_id - 1]
}

/// The ids of the loans a borrower has created, in creation order: the
/// loan sequence read left to right, keeping the ids of this borrower.
pub open spec fn borrower_loan_ids(loans: Seq<Loan>, borrower: u64) -> Seq<u64>
    decreases loans.len(),
{
    if loans.len() == 0 {
        Seq::empty()
    } else {
        let rest = borrower_loan_ids(loans.drop_last(), borrower);
        if loans.last().borrower == borrower {
            rest.push(loans.last().loan_id)
        } else {
            rest
        }
    }
}

/// Appending a loan appends its id to its borrower's id list and leaves
/// every other borrower's list unchanged.
pub proof fn lemma_borrower_ids_push(loans: Seq<Loan>, l: Loan)
    ensures
        forall|b: u64| #[trigger] borrower_loan_ids(loans.push(l), b) == (if l.borrower == b {
            borrower_loan_ids(loans, b).push(l.loan_id)
        } else {
            borrower_loan_ids(loans, b)
        }),
{
    assert forall|b: u64| #[trigger] borrower_loan_ids(loans.push(l), b) == (if l.borrower == b {
        borrower_loan_ids(loans, b).push(l.loan_id)
    } else {
        borrower_loan_ids(loans, b)
    }) by {
        assert(loans.push(l).drop_last() =~= loans);
        assert(loans.push(l).last() == l);
    }
}

/// Replacing a record with one of the same borrower and id changes no
/// borrower's id list.
pub proof fn lemma_borrower_ids_update_same(loans: Seq<Loan>, i: int, l2: Loan)
    requires
        0 <= i < loans.len(),
        l2.borrower == loans[i].borrower,
        l2.loan_id == loans[i].loan_id,
    ensures
        forall|b: u64| #[trigger] borrower_loan_ids(loans.update(i, l2), b) == borrower_loan_ids(
            loans,
            b,
        ),
    decreases loans.len(),
{
    let upd = loans.update(i, l2);
    assert forall|b: u64| #[trigger] borrower_loan_ids(upd, b) == borrower_loan_ids(loans, b) by {
        if i == loans.len() - 1 {
            assert(upd.drop_last() =~= loans.drop_last());
            assert(upd.last() == l2);
            assert(loans.last() == loans[i]);
            assert(borrower_loan_ids(upd.drop_last(), b) == borrower_loan_ids(
                loans.drop_last(),
                b,
            ));
        } else {
            assert(upd.drop_last() =~= loans.drop_last().update(i, l2));
            lemma_borrower_ids_update_same(loans.drop_last(), i, l2);
            assert(borrower_loan_ids(loans.drop_last().update(i, l2), b) == borrower_loan_ids(
                loans.drop_last(),
                b,
            ));
            assert(borrower_loan_ids(upd.drop_last(), b) == borrower_loan_ids(
                loans.drop_last(),
                b,
            ));
            assert(upd.last() == loans.last());
        }
    }
}

/// One borrower's entry in the registry's index.
struct BorrowerEntry {
    borrower: u64,
    ids: Vec<u64>,
}

spec fn index_has(index: Seq<BorrowerEntry>, borrower: u64) -> bool {
    exists|j: int| 0 <= j < index.len() && index[j].borrower == borrower
}

/// The registry: an id counter, the loan records in creation order, and
/// the borrower index.
pub struct LoanRegistry {
    counter: u64,
    loans: Vec<Loan>,
    index: Vec<BorrowerEntry>,
}

impl View for LoanRegistry {
    type V = Seq<Loan>;

    closed spec fn view(&self) -> Seq<Loan> {
        self.loans@
    }
}

impl LoanRegistry {
    /// The registry's structural invariant: the counter counts the loans,
    /// ids are dense from 1, and the borrower index holds exactly each
    /// borrower's loan ids in creation order, one entry per borrower.
    pub closed spec fn wf(&self) -> bool {
        &&& self.counter == self.loans@.len()
        &&& forall|i: int|
            0 <= i < self.loans@.len() ==> #[trigger] self.loans@[i].loan_id == i + 1
        &&& forall|j: int, k: int|
            0 <= j < k < self.index@.len() ==> #[trigger] self.index@[j].borrower
                != #[trigger] self.index@[k].borrower
        &&& forall|j: int|
            0 <= j < self.index@.len() ==> #[trigger] self.index@[j].ids@ == borrower_loan_ids(
                self.loans@,
                self.index@[j].borrower,
            )
        &&& forall|b: u64|
            !index_has(self.index@, b) ==> #[trigger] borrower_loan_ids(self.loans@, b)
                == Seq::<u64>::empty()
    }

    /// An empty registry; no id has been issued yet.
    pub fn new() -> (r: Self)
        ensures
            r.wf(),
            r@ == Seq::<Loan>::empty(),
    {
        let r = LoanRegistry { counter: 0, loans: Vec::new(), index: Vec::new() };
        proof {
            assert(r.loans@ =~= Seq::<Loan>::empty());
            assert forall|b: u64|
                !index_has(r.index@, b) implies #[trigger] borrower_loan_ids(r.loans@, b)
                == Seq::<u64>::empty() by {
                assert(borrower_loan_ids(r.loans@, b) == Seq::<u64>::empty());
            }
        }
        r
    }

    /// The id the next created loan will get: fresh, strictly above every
    /// issued id, and never 0.
    pub fn next_id(&self) -> (id: u64)
        requires
            self.wf(),
            self@.len() < u64::MAX,
        ensures
            id == self@.len() + 1,
    {
        self.counter + 1
    }

    /// Looks a loan up by id.
    pub fn get(&self, loan_id: u64) -> (r: Result<Loan, LoanError>)
        ensures
            has_loan(self@, loan_id) ==> r == Ok::<Loan, LoanError>(loan_of(self@, loan_id)),
            !has_loan(self@, loan_id) ==> r == Err::<Loan, LoanError>(LoanError::NotFound),
    {
        if 1 <= loan_id && loan_id <= self.loans.len() as u64 {
            Ok(self.loans[(loan_id - 1) as usize])
        } else {
            Err(LoanError::NotFound)
        }
    }

    fn find_entry(index: &Vec<BorrowerEntry>, borrower: u64) -> (r: Option<usize>)
        ensures
            match r {
                Some(j) => j < index@.len() && index@[j as int].borrower == borrower,
                None => forall|j: int| 0 <= j < index@.len() ==> index@[j].borrower != borrower,
            },
    {
        let mut k: usize = 0;
        while k < index.len()
            invariant
                k <= index@.len(),
                forall|j: int| 0 <= j < k ==> index@[j].borrower != borrower,
            decreases index@.len() - k,
        {
            if index[k].borrower == borrower {
                return Some(k);
            }
            k = k + 1;
        }
        None
    }

    /// Registers a freshly created loan under the next id and appends its
    /// id to its borrower's list.
    pub fn put(&mut self, loan: Loan)
        requires
            old(self).wf(),
            loan.loan_id == old(self)@.len() + 1,
            old(self)@.len() + 1 <= u64::MAX,
        ensures
            final(self).wf(),
            final(self)@ == old(self)@.push(loan),
    {
        let ghost old_loans = self.loans@;
        let ghost old_index = self.index@;
        self.counter = self.counter + 1;
        self.loans.push(loan);
        proof {
            lemma_borrower_ids_push(old_loans, loan);
        }
        match Self::find_entry(&self.index, loan.borrower) {
            Some(pos) => {
                let mut entry = self.index.remove(pos);
                entry.ids.push(loan.loan_id);
                self.index.insert(pos, entry);
                proof {
                    assert(self.index@ =~= old_index.update(pos as int, self.index@[pos as int]));
                    self.lemma_put_wf_after(old_loans, old_index, loan, pos as int);
                }
            },
            None => {
                let mut ids: Vec<u64> = Vec::new();
                ids.push(loan.loan_id);
                self.index.push(BorrowerEntry { borrower: loan.borrower, ids });
                proof {
                    self.lemma_put_wf_new_entry(old_loans, old_index, loan);
                }
            },
        }
    }

    proof fn lemma_put_wf_after(&self, old_loans: Seq<Loan>, old_index: Seq<BorrowerEntry>, loan: Loan, pos: int)
        requires
            self.counter == old_loans.len() + 1,
            loan.loan_id == old_loans.len() + 1,
            self.loans@ == old_loans.push(loan),
            forall|i: int| 0 <= i < old_loans.len() ==> #[trigger] old_loans[i].loan_id == i + 1,
            forall|j: int, k: int|
                0 <= j < k < old_index.len() ==> #[trigger] old_index[j].borrower
                    != #[trigger] old_index[k].borrower,
            forall|j: int|
                0 <= j < old_index.len() ==> #[trigger] old_index[j].ids@ == borrower_loan_ids(
                    old_loans,
                    old_index[j].borrower,
                ),
            forall|b: u64|
                !index_has(old_index, b) ==> #[trigger] borrower_loan_ids(old_loans, b)
                    == Seq::<u64>::empty(),
            0 <= pos < old_index.len(),
            old_index[pos].borrower == loan.borrower,
            self.index@.len() == old_index.len(),
            self.index@[pos].borrower == loan.borrower,
            self.index@[pos].ids@ == old_index[pos].ids@.push(loan.loan_id),
            forall|j: int|
                0 <= j < old_index.len() && j != pos ==> #[trigger] self.index@[j] == old_index[j],
        ensures
            self.wf(),
    {
        lemma_borrower_ids_push(old_loans, loan);
        assert forall|i: int|
            0 <= i < self.loans@.len() implies #[trigger] self.loans@[i].loan_id == i + 1 by {
            if i < old_loans.len() {
                assert(self.loans@[i] == old_loans[i]);
            }
        }
        assert forall|j: int|
            0 <= j < self.index@.len() implies #[trigger] self.index@[j].ids@ == borrower_loan_ids(
            self.loans@,
            self.index@[j].borrower,
        ) by {
            if j == pos {
                assert(borrower_loan_ids(self.loans@, loan.borrower) == borrower_loan_ids(
                    old_loans,
                    loan.borrower,
                ).push(loan.loan_id));
            } else {
                assert(self.index@[j] == old_index[j]);
                let b = old_index[j].borrower;
                if j < pos {
                    assert(old_index[j].borrower != old_index[pos].borrower);
                } else {
                    assert(old_index[pos].borrower != old_index[j].borrower);
                }
                assert(b != loan.borrower);
                assert(borrower_loan_ids(self.loans@, b) == borrower_loan_ids(old_loans, b));
            }
        }
        assert forall|b: u64|
            !index_has(self.index@, b) implies #[trigger] borrower_loan_ids(self.loans@, b)
            == Seq::<u64>::empty() by {
            assert forall|j: int| 0 <= j < old_index.len() implies old_index[j].borrower != b by {
                if j == pos {
                    assert(self.index@[pos].borrower == old_index[pos].borrower);
                    assert(self.index@[j].borrower != b);
                } else {
                    assert(self.index@[j] == old_index[j]);
                    assert(self.index@[j].borrower != b);
                }
            }
            assert(!index_has(old_index, b));
            assert(b != loan.borrower);
            assert(borrower_loan_ids(self.loans@, b) == borrower_loan_ids(old_loans, b));
        }
        assert forall|j: int, k: int|
            0 <= j < k < self.index@.len() implies #[trigger] self.index@[j].borrower
            != #[trigger] self.index@[k].borrower by {
            assert(self.index@[j].borrower == old_index[j].borrower);
            assert(self.index@[k].borrower == old_index[k].borrower);
        }
    }

    proof fn lemma_put_wf_new_entry(&self, old_loans: Seq<Loan>, old_index: Seq<BorrowerEntry>, loan: Loan)
        requires
            self.counter == old_loans.len() + 1,
            loan.loan_id == old_loans.len() + 1,
            self.loans@ == old_loans.push(loan),
            forall|i: int| 0 <= i < old_loans.len() ==> #[trigger] old_loans[i].loan_id == i + 1,
            forall|j: int, k: int|
                0 <= j < k < old_index.len() ==> #[trigger] old_index[j].borrower
                    != #[trigger] old_index[k].borrower,
            forall|j: int|
                0 <= j < old_index.len() ==> #[trigger] old_index[j].ids@ == borrower_loan_ids(
                    old_loans,
                    old_index[j].borrower,
                ),
            forall|b: u64|
                !index_has(old_index, b) ==> #[trigger] borrower_loan_ids(old_loans, b)
                    == Seq::<u64>::empty(),
            forall|j: int| 0 <= j < old_index.len() ==> old_index[j].borrower != loan.borrower,
            self.index@.len() == old_index.len() + 1,
            forall|j: int|
                0 <= j < old_index.len() ==> #[trigger] self.index@[j] == old_index[j],
            self.index@.last().borrower == loan.borrower,
            self.index@.last().ids@ == Seq::<u64>::empty().push(loan.loan_id),
        ensures
            self.wf(),
    {
        lemma_borrower_ids_push(old_loans, loan);
        let n = old_index.len() as int;
        assert forall|i: int|
            0 <= i < self.loans@.len() implies #[trigger] self.loans@[i].loan_id == i + 1 by {
            if i < old_loans.len() {
                assert(self.loans@[i] == old_loans[i]);
            }
        }
        assert(!index_has(old_index, loan.borrower));
        assert(borrower_loan_ids(old_loans, loan.borrower) == Seq::<u64>::empty());
        assert forall|j: int|
            0 <= j < self.index@.len() implies #[trigger] self.index@[j].ids@ == borrower_loan_ids(
            self.loans@,
            self.index@[j].borrower,
        ) by {
            if j == n {
                assert(self.index@[j] == self.index@.last());
                assert(borrower_loan_ids(self.loans@, loan.borrower) == borrower_loan_ids(
                    old_loans,
                    loan.borrower,
                ).push(loan.loan_id));
            } else {
                assert(self.index@[j] == old_index[j]);
                let b = old_index[j].borrower;
                assert(b != loan.borrower);
                assert(borrower_loan_ids(self.loans@, b) == borrower_loan_ids(old_loans, b));
            }
        }
        assert forall|b: u64|
            !index_has(self.index@, b) implies #[trigger] borrower_loan_ids(self.loans@, b)
            == Seq::<u64>::empty() by {
            assert forall|j: int| 0 <= j < old_index.len() implies old_index[j].borrower != b by {
                assert(self.index@[j] == old_index[j]);
                assert(self.index@[j].borrower != b);
            }
            assert(!index_has(old_index, b));
            assert(self.index@[n].borrower != b);
            assert(b != loan.borrower);
            assert(borrower_loan_ids(self.loans@, b) == borrower_loan_ids(old_loans, b));
        }
        assert forall|j: int, k: int|
            0 <= j < k < self.index@.len() implies #[trigger] self.index@[j].borrower
            != #[trigger] self.index@[k].borrower by {
            if k < n {
                assert(self.index@[j].borrower == old_index[j].borrower);
                assert(self.index@[k].borrower == old_index[k].borrower);
            } else {
                assert(self.index@[j] == old_index[j]);
                assert(self.index@[k] == self.index@.last());
            }
        }
    }

    /// Overwrites the record registered under a loan id. The borrower and
    /// the id itself never change, so the borrower index is untouched.
    pub fn update(&mut self, loan: Loan)
        requires
            old(self).wf(),
            has_loan(old(self)@, loan.loan_id),
            loan.borrower == loan_of(old(self)@, loan.loan_id).borrower,
        ensures
            final(self).wf(),
            final(self)@ == old(self)@.update(loan.loan_id - 1, loan),
    {
        let ghost old_loans = self.loans@;
        let n: usize = self.loans.len();
        let pos: usize = (loan.loan_id - 1) as usize;
        proof {
            assert(loan.loan_id - 1 < n as u64);
            assert(old_loans[pos as int].loan_id == pos + 1);
        }
        let slot = &mut self.loans[pos];
        *slot = loan;
        proof {
            lemma_borrower_ids_update_same(old_loans, pos as int, loan);
            assert forall|j: int|
                0 <= j < self.index@.len() implies #[trigger] self.index@[j].ids@
                == borrower_loan_ids(self.loans@, self.index@[j].borrower) by {
                assert(borrower_loan_ids(self.loans@, self.index@[j].borrower)
                    == borrower_loan_ids(old_loans, self.index@[j].borrower));
            }
            assert forall|b: u64|
                !index_has(self.index@, b) implies #[trigger] borrower_loan_ids(self.loans@, b)
                == Seq::<u64>::empty() by {
                assert(borrower_loan_ids(self.loans@, b) == borrower_loan_ids(old_loans, b));
            }
        }
    }

    /// The ordered ids of a borrower's loans.
    pub fn loans_of(&self, borrower: u64) -> (r: Vec<u64>)
        requires
            self.wf(),
        ensures
            r@ == borrower_loan_ids(self@, borrower),
    {
        match Self::find_entry(&self.index, borrower) {
            Some(pos) => {
                let entry = &self.index[pos];
                let n: usize = entry.ids.len();
                let mut out: Vec<u64> = Vec::new();
                let mut k: usize = 0;
                while k < n
                    invariant
                        k <= n,
                        n == entry.ids@.len(),
                        out@ == entry.ids@.subrange(0, k as int),
                    decreases n - k,
                {
                    out.push(entry.ids[k]);
                    proof {
                        assert(out@ =~= entry.ids@.subrange(0, k + 1));
                    }
                    k = k + 1;
                }
                proof {
                    assert(out@ =~= entry.ids@);
                }
                out
            },
            None => {
                proof {
                    assert(!index_has(self.index@, borrower));
                }
                Vec::new()
            },
        }
    }
}

} // verus!
