//! The payment history ledger: for each identity the payments it made,
//! in the order in which they were made.

use vstd::prelude::*;
use crate::model::{Payment, PaymentView, payment_views};

verus! {

/// The histories of all identities: an identity without an entry has
/// made no payment yet.
pub type Histories = Map<Seq<char>, Seq<PaymentView>>;

/// The payments of `payer` in `histories`, oldest first.
pub open spec fn history_in(histories: Histories, payer: Seq<char>) -> Seq<PaymentView> {
    if histories.dom().contains(payer) {
        histories[payer]
    } else {
        Seq::empty()
    }
}

/// `histories` after `record` was added behind the payments of `payer`.
pub open spec fn appended(histories: Histories, payer: Seq<char>, record: PaymentView) -> Histories {
    histories.insert(payer, history_in(histories, payer).push(record))
}

/// The payments of one identity.
#[derive(Debug)]
struct Book {
    payer: String,
    payments: Vec<Payment>,
}

/// The append-only ledger. Nothing in it is ever changed or removed.
#[derive(Debug)]
pub struct PaymentLedger {
    books: Vec<Book>,
}

/// Where the book of `payer` lies among `books`, if it has one.
spec fn position_in(books: Seq<Book>, payer: Seq<char>) -> Option<int> {
    if exists|i: int| 0 <= i < books.len() && books[i].payer@ == payer {
        Some(choose|i: int| 0 <= i < books.len() && books[i].payer@ == payer)
    } else {
        None
    }
}

/// No identity has two books.
spec fn distinct_in(books: Seq<Book>) -> bool {
    forall|i: int, j: int| 0 <= i < j < books.len() ==> books[i].payer@ != books[j].payer@
}

/// The histories that `books` hold.
spec fn histories_of(books: Seq<Book>) -> Histories {
    Map::new(
        |payer: Seq<char>| position_in(books, payer) is Some,
        |payer: Seq<char>| payment_views(books[position_in(books, payer).unwrap()].payments@),
    )
}

/// Among distinct books, the book at `i` is the one its payer is found at.
proof fn lemma_position(books: Seq<Book>, i: int)
    requires
        distinct_in(books),
        0 <= i < books.len(),
    ensures
        position_in(books, books[i].payer@) == Some(i),
{
    let payer = books[i].payer@;
    let found = choose|k: int| 0 <= k < books.len() && books[k].payer@ == payer;
    assert(0 <= found < books.len() && books[found].payer@ == payer);
    if found < i {
        assert(books[found].payer@ != books[i].payer@);
    } else if i < found {
        assert(books[i].payer@ != books[found].payer@);
    }
}

impl View for PaymentLedger {
    type V = Histories;

    closed spec fn view(&self) -> Histories {
        histories_of(self.books@)
    }
}

impl PaymentLedger {
    #[verifier::type_invariant]
    closed spec fn well_formed(&self) -> bool {
        distinct_in(self.books@)
    }

    /// A ledger without any payment.
    pub fn new() -> (res: Self)
        ensures
            res@ == Map::<Seq<char>, Seq<PaymentView>>::empty(),
    {
        let res = PaymentLedger { books: Vec::new() };
        assert(res@ =~= Map::<Seq<char>, Seq<PaymentView>>::empty());
        res
    }

    /// The index of the book of `payer`.
    fn find(&self, payer: &String) -> (res: Option<usize>)
        ensures
            res is Some ==> res.unwrap() < self.books@.len(),
            position_in(self.books@, payer@) == match res {
                Some(i) => Some(i as int),
                None => None,
            },
    {
        proof {
            use_type_invariant(self);
        }
        let mut i: usize = 0;
        while i < self.books.len()
            invariant
                i <= self.books@.len(),
                distinct_in(self.books@),
                forall|j: int| 0 <= j < i ==> self.books@[j].payer@ != payer@,
            decreases self.books@.len() - i,
        {
            if self.books[i].payer == *payer {
                proof {
                    lemma_position(self.books@, i as int);
                }
                return Some(i);
            }
            i = i + 1;
        }
        None
    }

    /// Adds `record` behind the payments that `payer` has made so far.
    pub fn append(&mut self, payer: String, record: Payment)
        ensures
            final(self)@ == appended(old(self)@, payer@, record@),
    {
        let mut taken = PaymentLedger { books: Vec::new() };
        core::mem::swap(self, &mut taken);
        proof {
            use_type_invariant(&taken);
        }
        let found = taken.find(&payer);
        let mut books = taken.books;
        let ghost before = books@;
        match found {
            Some(i) => {
                books[i].payments.push(record);
                proof {
                    assert(books@.len() == before.len());
                    assert(forall|j: int|
                        0 <= j < books@.len() ==> books@[j].payer@ == before[j].payer@);
                    assert(books@[i as int].payments@ == before[i as int].payments@.push(record));
                    assert(payment_views(books@[i as int].payments@) =~= payment_views(
                        before[i as int].payments@,
                    ).push(record@));
                }
            },
            None => {
                let mut payments: Vec<Payment> = Vec::new();
                payments.push(record);
                books.push(Book { payer, payments });
                proof {
                    assert(payment_views(books@[before.len() as int].payments@) =~= Seq::<
                        PaymentView,
                    >::empty().push(record@));
                }
            },
        }
        proof {
            let after = books@;
            assert(distinct_in(after));
            assert forall|p: Seq<char>|
                histories_of(after).dom().contains(p) == appended(
                    histories_of(before),
                    payer@,
                    record@,
                ).dom().contains(p) by {
                if position_in(after, p) is Some {
                    let k = position_in(after, p).unwrap();
                    if k < before.len() {
                        assert(before[k].payer@ == p);
                    }
                }
                if position_in(before, p) is Some {
                    let k = position_in(before, p).unwrap();
                    assert(after[k].payer@ == p);
                }
                if p == payer@ {
                    if position_in(before, p) is None {
                        assert(after[before.len() as int].payer@ == p);
                    }
                }
            }
            assert forall|p: Seq<char>| #[trigger]
                histories_of(after).dom().contains(p) implies histories_of(after)[p] == appended(
                histories_of(before),
                payer@,
                record@,
            )[p] by {
                let k = position_in(after, p).unwrap();
                lemma_position(after, k);
                if p != payer@ {
                    assert(before[k].payer@ == p);
                    lemma_position(before, k);
                    assert(after[k].payments@ == before[k].payments@);
                } else if position_in(before, p) is Some {
                    let b = position_in(before, p).unwrap();
                    assert(after[b].payer@ == p);
                    lemma_position(after, b);
                } else {
                    if k < before.len() {
                        assert(before[k].payer@ == p);
                    }
                }
            }
            assert(histories_of(after) =~= appended(histories_of(before), payer@, record@));
        }
        *self = PaymentLedger { books };
    }

    /// The payments that `payer` has made, oldest first; none for an
    /// identity the ledger has not seen.
    pub fn history(&self, payer: &String) -> (res: Vec<Payment>)
        ensures
            payment_views(res@) == history_in(self@, payer@),
    {
        let mut res: Vec<Payment> = Vec::new();
        match self.find(payer) {
            Some(i) => {
                let book = &self.books[i];
                let mut k: usize = 0;
                while k < book.payments.len()
                    invariant
                        k <= book.payments@.len(),
                        res@.len() == k,
                        forall|j: int| 0 <= j < k ==> res@[j] == book.payments@[j],
                    decreases book.payments@.len() - k,
                {
                    res.push(book.payments[k].clone());
                    k = k + 1;
                }
                assert(payment_views(res@) =~= payment_views(book.payments@));
            },
            None => {
                assert(payment_views(res@) =~= Seq::<PaymentView>::empty());
            },
        }
        res
    }
}

} // verus!
