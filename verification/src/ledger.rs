//! The ledger: every transaction, kept in the order of their dates.

use vstd::prelude::*;
use decimal::d128;
use crate::category::{join, separator, texts, Category};
use crate::currency::Currency;
use crate::transaction::{Transaction, TransactionView};

verus! {

/// A collection of transactions, ordered by date. Transactions of the same
/// date stay in the order in which they were added.
#[derive(Debug)]
pub struct Ledger<C: Currency = d128> {
    transactions: Vec<Transaction<C>>,
}

/// The number by which a transaction is ordered: the packed fields of its
/// date.
pub open spec fn date_key<C>(t: TransactionView<C>) -> int {
    t.date()@.ordinal()
}

/// Whether no transaction comes before one of an earlier date.
pub open spec fn dates_sorted<C>(s: Seq<TransactionView<C>>) -> bool {
    forall|i: int, j: int| 0 <= i <= j < s.len() ==> date_key(s[i]) <= date_key(s[j])
}

/// Where a transaction of date `key` goes: behind the last transaction that
/// is not later than it.
pub open spec fn insertion_point<C>(s: Seq<TransactionView<C>>, key: int) -> int
    decreases s.len(),
{
    if s.len() == 0 {
        0
    } else if date_key(s.last()) <= key {
        s.len() as int
    } else {
        insertion_point(s.drop_last(), key)
    }
}

/// The ledger with one more transaction in its place.
pub open spec fn placed<C>(s: Seq<TransactionView<C>>, t: TransactionView<C>) -> Seq<
    TransactionView<C>,
> {
    s.insert(insertion_point(s, date_key(t)), t)
}

/// The transactions in the order of their dates, those of one date in the
/// order in which the list has them.
pub open spec fn sorted_by_date<C>(s: Seq<TransactionView<C>>) -> Seq<TransactionView<C>>
    decreases s.len(),
{
    if s.len() == 0 {
        Seq::empty()
    } else {
        placed(sorted_by_date(s.drop_last()), s.last())
    }
}

/// The written categories of the transactions that have one, in the order of
/// the transactions.
pub open spec fn written_categories<C>(s: Seq<TransactionView<C>>) -> Seq<Seq<char>>
    decreases s.len(),
{
    if s.len() == 0 {
        Seq::empty()
    } else if s.last().category.len() == 0 {
        written_categories(s.drop_last())
    } else {
        written_categories(s.drop_last()).push(join(s.last().category, separator()))
    }
}

/// The views of a list of transactions.
pub open spec fn views<C: Currency>(v: Seq<Transaction<C>>) -> Seq<TransactionView<C>> {
    v.map_values(|t: Transaction<C>| t@)
}

/// The insertion point lies within the list; everything from it on is later
/// than `key`, and in an ordered list nothing before it is.
pub proof fn lemma_insertion_point<C>(s: Seq<TransactionView<C>>, key: int)
    ensures
        0 <= insertion_point(s, key) <= s.len(),
        forall|k: int| insertion_point(s, key) <= k < s.len() ==> date_key(s[k]) > key,
        dates_sorted(s) ==> forall|k: int|
            0 <= k < insertion_point(s, key) ==> date_key(s[k]) <= key,
    decreases s.len(),
{
    if s.len() == 0 {
    } else if date_key(s.last()) <= key {
        if dates_sorted(s) {
            assert forall|k: int| 0 <= k < s.len() implies date_key(s[k]) <= key by {
                assert(date_key(s[k]) <= date_key(s[s.len() - 1]));
            }
        }
    } else {
        let front = s.drop_last();
        lemma_insertion_point(front, key);
        assert forall|k: int| insertion_point(s, key) <= k < s.len() implies date_key(s[k])
            > key by {
            if k < front.len() {
                assert(front[k] == s[k]);
            }
        }
        if dates_sorted(s) {
            assert forall|i: int, j: int| 0 <= i <= j < front.len() implies date_key(front[i])
                <= date_key(front[j]) by {
                assert(front[i] == s[i] && front[j] == s[j]);
            }
            assert forall|k: int| 0 <= k < insertion_point(s, key) implies date_key(s[k])
                <= key by {
                assert(front[k] == s[k]);
            }
        }
    }
}

/// Placing a transaction into an ordered ledger leaves it ordered.
pub proof fn lemma_placed_sorted<C>(s: Seq<TransactionView<C>>, t: TransactionView<C>)
    requires
        dates_sorted(s),
    ensures
        dates_sorted(placed(s, t)),
        placed(s, t).len() == s.len() + 1,
{
    lemma_insertion_point(s, date_key(t));
    let p = insertion_point(s, date_key(t));
    let r = placed(s, t);
    assert forall|i: int, j: int| 0 <= i <= j < r.len() implies date_key(r[i]) <= date_key(
        r[j],
    ) by {
        if i < p && j > p {
            assert(r[i] == s[i] && r[j] == s[j - 1]);
        } else if i < p && j < p {
            assert(r[i] == s[i] && r[j] == s[j]);
        } else if i > p {
            assert(r[i] == s[i - 1] && r[j] == s[j - 1]);
        }
    }
}

/// Ordering a list by date gives an ordered list of the same transactions,
/// each as often as the list has it.
pub proof fn lemma_sorted_by_date<C>(s: Seq<TransactionView<C>>)
    ensures
        dates_sorted(sorted_by_date(s)),
        sorted_by_date(s).len() == s.len(),
        sorted_by_date(s).to_multiset() == s.to_multiset(),
    decreases s.len(),
{
    if s.len() > 0 {
        let front = sorted_by_date(s.drop_last());
        lemma_sorted_by_date(s.drop_last());
        lemma_placed_sorted(front, s.last());
        lemma_insertion_point(front, date_key(s.last()));
        vstd::seq_lib::to_multiset_insert(
            front,
            insertion_point(front, date_key(s.last())),
            s.last(),
        );
        vstd::seq_lib::to_multiset_build(s.drop_last(), s.last());
        assert(s.drop_last().push(s.last()) =~= s);
        assert(sorted_by_date(s).to_multiset() =~= s.to_multiset());
    } else {
        assert(sorted_by_date(s) =~= s);
    }
}

impl<C: Currency> View for Ledger<C> {
    type V = Seq<TransactionView<C>>;

    closed spec fn view(&self) -> Seq<TransactionView<C>> {
        views(self.transactions@)
    }
}

impl<C: Currency> Default for Ledger<C> {
    /// The ledger without transactions.
    fn default() -> (r: Ledger<C>)
        ensures
            r@ == Seq::<TransactionView<C>>::empty(),
            r.wf(),
    {
        let r = Ledger { transactions: Vec::new() };
        assert(r@ =~= Seq::<TransactionView<C>>::empty());
        r
    }
}

impl<C: Currency> Ledger<C> {
    /// Whether the transactions stand in the order of their dates.
    pub open spec fn wf(&self) -> bool {
        dates_sorted(self@)
    }

    /// The ledger of the given transactions, ordered by date; transactions
    /// of one date keep the order of the list.
    pub fn from_transactions(transactions: Vec<Transaction<C>>) -> (r: Ledger<C>)
        ensures
            r@ == sorted_by_date(views(transactions@)),
            r.wf(),
    {
        let mut ledger = Ledger::default();
        let mut i: usize = 0;
        assert(views(transactions@).take(0) =~= Seq::<TransactionView<C>>::empty());
        while i < transactions.len()
            invariant
                i <= transactions.len(),
                ledger.wf(),
                ledger@ == sorted_by_date(views(transactions@).take(i as int)),
            decreases transactions.len() - i,
        {
            let t = transactions[i].clone();
            proof {
                let next = views(transactions@).take(i + 1);
                assert(next.drop_last() =~= views(transactions@).take(i as int));
                assert(next.last() == t@);
            }
            ledger.add(t);
            i += 1;
        }
        assert(views(transactions@).take(transactions.len() as int) =~= views(transactions@));
        ledger
    }

    /// The written categories of the transactions that have one, in the
    /// order of the ledger.
    pub fn categories(&self) -> (r: Vec<String>)
        ensures
            texts(r@) == written_categories(self@),
    {
        let mut names: Vec<String> = Vec::new();
        let mut i: usize = 0;
        assert(self@.take(0) =~= Seq::<TransactionView<C>>::empty());
        while i < self.transactions.len()
            invariant
                i <= self.transactions.len(),
                texts(names@) == written_categories(self@.take(i as int)),
            decreases self.transactions.len() - i,
        {
            proof {
                let next = self@.take(i + 1);
                assert(next.drop_last() =~= self@.take(i as int));
                assert(next.last() == self.transactions@[i as int]@);
            }
            match self.transactions[i].category().to_text() {
                Some(name) => {
                    assert(texts(names@.push(name)) =~= texts(names@).push(name@));
                    names.push(name);
                },
                None => {},
            }
            i += 1;
        }
        assert(self@.take(self.transactions.len() as int) =~= self@);
        names
    }

    /// Puts the transaction behind the last one that is not later than it,
    /// where pushing it to the end and ordering the ledger again, without
    /// letting transactions of one date change places, would bring it.
    pub fn add(&mut self, t: Transaction<C>)
        ensures
            final(self)@ == placed(old(self)@, t@),
            old(self).wf() ==> final(self).wf(),
            final(self)@.len() == old(self)@.len() + 1,
    {
        let key = t.date().ordinal();
        let mut i: usize = self.transactions.len();
        assert(self@.take(i as int) =~= self@);
        while i > 0 && self.transactions[i - 1].date().ordinal() > key
            invariant
                i <= self.transactions.len(),
                key == date_key(t@),
                insertion_point(self@, key as int) == insertion_point(
                    self@.take(i as int),
                    key as int,
                ),
                self.transactions@ == old(self).transactions@,
            decreases i,
        {
            proof {
                let upto = self@.take(i as int);
                assert(upto.last() == self.transactions@[i - 1]@);
                assert(upto.drop_last() =~= self@.take(i - 1));
            }
            i -= 1;
        }
        proof {
            let upto = self@.take(i as int);
            if i > 0 {
                assert(upto.last() == self.transactions@[i - 1]@);
            }
            assert(insertion_point(upto, key as int) == i);
            if old(self).wf() {
                lemma_placed_sorted(old(self)@, t@);
            }
            assert(views(old(self).transactions@.insert(i as int, t)) =~= old(self)@.insert(
                i as int,
                t@,
            ));
        }
        self.transactions.insert(i, t);
    }

    /// The number of transactions.
    pub fn len(&self) -> (r: usize)
        ensures
            r == self@.len(),
    {
        self.transactions.len()
    }

    /// The transactions in the order of the ledger.
    pub fn transactions(&self) -> (r: &Vec<Transaction<C>>)
        ensures
            views(r@) == self@,
    {
        &self.transactions
    }

    /// Gives the transactions up, in the order of the ledger.
    pub fn into_vec(self) -> (r: Vec<Transaction<C>>)
        ensures
            views(r@) == self@,
    {
        self.transactions
    }

    /// The position of the first transaction whose written category is
    /// `name`, or the length of the ledger where there is none.
    pub fn find_category(&self, name: &String) -> (i: usize)
        ensures
            i == first_written(self@, name@),
    {
        let mut i: usize = 0;
        assert(self@.skip(0) =~= self@);
        while i < self.transactions.len()
            invariant
                i <= self.transactions.len(),
                first_written(self@, name@) == i + first_written(self@.skip(i as int), name@),
            decreases self.transactions.len() - i,
        {
            proof {
                assert(self@.skip(i as int)[0] == self.transactions@[i as int]@);
                assert(self@.skip(i as int).skip(1) =~= self@.skip(i + 1));
            }
            match self.transactions[i].category().to_text() {
                Some(text) => {
                    if text == *name {
                        return i;
                    }
                },
                None => {},
            }
            i += 1;
        }
        i
    }

    /// Replaces the category of the transaction at `index`. Dates do not
    /// change, so the order stands.
    pub fn set_category_at(&mut self, index: usize, category: Category)
        requires
            index < old(self)@.len(),
        ensures
            final(self)@ == old(self)@.update(
                index as int,
                (TransactionView { category: category@, ..old(self)@[index as int] }),
            ),
            old(self).wf() ==> final(self).wf(),
    {
        let t = &mut self.transactions[index];
        t.set_category(Some(category));
        proof {
            assert(self@ =~= old(self)@.update(
                index as int,
                (TransactionView { category: category@, ..old(self)@[index as int] }),
            ));
            if old(self).wf() {
                assert forall|i: int, j: int| 0 <= i <= j < self@.len() implies date_key(
                    self@[i],
                ) <= date_key(self@[j]) by {
                    assert(date_key(self@[i]) == date_key(old(self)@[i]));
                    assert(date_key(self@[j]) == date_key(old(self)@[j]));
                }
            }
        }
    }
}

/// The position of the first transaction whose written category is `name`,
/// or the length of the list where there is none.
pub open spec fn first_written<C>(s: Seq<TransactionView<C>>, name: Seq<char>) -> int
    decreases s.len(),
{
    if s.len() == 0 {
        0
    } else if crate::category::written(s[0].category) == Some(name) {
        0
    } else {
        1 + first_written(s.skip(1), name)
    }
}

} // verus!
