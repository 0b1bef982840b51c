//! The budget: one ledger, the summaries that are cached for each calendar
//! month, the registry of categories and the table of allocations.

use vstd::prelude::*;
use vstd::string::StringExecFns;
use crate::category::{split, texts, Category};
use crate::currency::{adds_in_any_order, Currency};
use crate::ledger::{
    date_key,
    dates_sorted,
    first_written,
    insertion_point,
    lemma_insertion_point,
    placed,
    views,
    Ledger,
};
use crate::lookup::{
    first_match,
    lemma_filter_insert,
    lemma_filter_last,
    lemma_first_match,
    lemma_first_match_push,
    lemma_first_match_unique,
};
use crate::summary::{
    amounts,
    flat_view,
    lemma_insert_all_step,
    lemma_insert_wf,
    lemma_root_is_total,
    lemma_total_of_insert,
    total_of,
    Path,
    Summary,
    SummaryData,
    SummaryView,
    Totals,
};
use crate::text::find_text;
use crate::time::{CalendarMonth, Timestamp};
use crate::transaction::{Transaction, TransactionView};

verus! {

/// What is cached for one calendar month: the summary tree of every
/// transaction of the month, and the aggregate of those without a category.
#[derive(Debug)]
pub struct MonthSummary<C: Currency> {
    month: CalendarMonth,
    summary: Summary<C>,
    uncategorized: SummaryData<C>,
}

/// The cache of one month as a value.
pub struct MonthView<C> {
    pub month: CalendarMonth,
    pub summary: SummaryView<C>,
    pub uncategorized: Totals<C>,
}

/// The amount that is planned for one category in one month. The category
/// is named by its position in the registry.
#[derive(Clone, Copy, Debug)]
pub struct Allocation<C> {
    pub month: CalendarMonth,
    pub category: usize,
    pub amount: C,
}

/// The cached state of a budget: the summaries by month, in the order in
/// which the months were first needed, and the table of allocations.
#[derive(Debug)]
pub struct Cache<C: Currency> {
    cached_summaries: Vec<MonthSummary<C>>,
    allocations: Vec<Allocation<C>>,
}

/// The cached state as a value.
pub struct CacheView<C> {
    pub months: Seq<MonthView<C>>,
    pub allocations: Seq<Allocation<C>>,
}

/// A budget for a single account.
///
/// The summaries are updated with every transaction that is added, so that
/// no question about a month has to walk the ledger.
#[derive(Debug)]
pub struct Budget<C: Currency> {
    transactions: Ledger<C>,
    cache: Cache<C>,
    registry: Vec<String>,
}

/// A budget as a value.
pub struct BudgetView<C> {
    pub ledger: Seq<TransactionView<C>>,
    pub cache: CacheView<C>,
    pub registry: Seq<Seq<char>>,
}

/// Why a transfer failed. No transfer fails, and no value of this type can
/// be made: categories that are not yet registered are registered on the
/// way.
#[derive(Debug)]
pub struct TransferError {
    never: core::convert::Infallible,
}

/// The months under which the summaries stand.
pub open spec fn month_keys<C>(months: Seq<MonthView<C>>) -> Seq<CalendarMonth> {
    months.map_values(|e: MonthView<C>| e.month)
}

/// The month and category of each allocation.
pub open spec fn allocation_keys<C>(allocations: Seq<Allocation<C>>) -> Seq<(CalendarMonth, int)> {
    allocations.map_values(|a: Allocation<C>| (a.month, a.category as int))
}

/// The registry with `name` in it: unchanged where it has the name, else
/// with the name at the end.
pub open spec fn ensured(registry: Seq<Seq<char>>, name: Seq<char>) -> Seq<Seq<char>> {
    if registry.contains(name) {
        registry
    } else {
        registry.push(name)
    }
}

/// The registry in which the first entry named `from` is named `to`.
pub open spec fn renamed(registry: Seq<Seq<char>>, from: Seq<char>, to: Seq<char>) -> Seq<
    Seq<char>,
> {
    let i = first_match(registry, from);
    if 0 <= i < registry.len() {
        registry.update(i, to)
    } else {
        registry
    }
}

/// The path that a text writes, where the empty text writes the empty path.
pub open spec fn path_of(text: Seq<char>) -> Path {
    if text.len() == 0 {
        Seq::empty()
    } else {
        split(text)
    }
}

/// The ledger in which the first transaction whose written category is
/// `from` has the category that `to` writes.
pub open spec fn recategorised<C>(
    ledger: Seq<TransactionView<C>>,
    from: Seq<char>,
    to: Seq<char>,
) -> Seq<TransactionView<C>> {
    let i = first_written(ledger, from);
    if 0 <= i < ledger.len() {
        ledger.update(i, TransactionView { category: path_of(to), ..ledger[i] })
    } else {
        ledger
    }
}

/// The test that a transaction's date falls in `month`.
pub open spec fn falls_in<C>(month: CalendarMonth) -> spec_fn(TransactionView<C>) -> bool {
    |t: TransactionView<C>| t.date().month_of() == month
}

/// The test that a transaction's date falls in `month` and that it has no
/// category.
pub open spec fn falls_in_bare<C>(month: CalendarMonth) -> spec_fn(TransactionView<C>) -> bool {
    |t: TransactionView<C>| t.date().month_of() == month && t.category.len() == 0
}

/// The transactions whose date falls in `month`, in their order.
pub open spec fn in_month<C>(transactions: Seq<TransactionView<C>>, month: CalendarMonth) -> Seq<
    TransactionView<C>,
> {
    transactions.filter(falls_in(month))
}

/// The transactions of `month` that have no category, in their order.
pub open spec fn uncategorized_in_month<C>(
    transactions: Seq<TransactionView<C>>,
    month: CalendarMonth,
) -> Seq<TransactionView<C>> {
    transactions.filter(falls_in_bare(month))
}

/// The table with `amount` taken from, or given to, the allocation of the
/// category `id` in `month`. A missing allocation starts at zero.
pub open spec fn adjusted<C: Currency>(
    allocations: Seq<Allocation<C>>,
    month: CalendarMonth,
    id: int,
    amount: C,
    credit: bool,
) -> Seq<Allocation<C>> {
    let k = first_match(allocation_keys(allocations), (month, id));
    let before = if 0 <= k < allocations.len() {
        allocations[k].amount
    } else {
        C::zero_value()
    };
    let after = Allocation {
        month,
        category: id as usize,
        amount: if credit {
            before.plus(amount)
        } else {
            before.minus(amount)
        },
    };
    if 0 <= k < allocations.len() {
        allocations.update(k, after)
    } else {
        allocations.push(after)
    }
}

impl<C: Currency> MonthView<C> {
    /// The cache of a month without transactions.
    pub open spec fn empty(month: CalendarMonth) -> MonthView<C> {
        MonthView { month, summary: SummaryView::empty(), uncategorized: Totals::zero() }
    }

    /// The cache of the month after one more transaction: it goes into the
    /// tree, and into the uncategorized aggregate where its path is empty.
    pub open spec fn record(self, amount: C, path: Path) -> MonthView<C> {
        MonthView {
            month: self.month,
            summary: self.summary.insert(amount, path),
            uncategorized: if path.len() == 0 {
                self.uncategorized.with(amount)
            } else {
                self.uncategorized
            },
        }
    }

    /// Whether neither count is over `bound`.
    pub open spec fn within(self, bound: nat) -> bool {
        self.summary.data.n <= bound && self.uncategorized.n <= bound
    }
}

impl<C: Currency> CacheView<C> {
    /// The cache of a budget without transactions or transfers.
    pub open spec fn empty() -> CacheView<C> {
        CacheView { months: Seq::empty(), allocations: Seq::empty() }
    }

    /// Whether every tree is well formed and no month stands twice.
    pub open spec fn wf(self) -> bool {
        &&& forall|i: int| 0 <= i < self.months.len() ==> (#[trigger] self.months[i]).summary.wf()
        &&& forall|i: int, j: int|
            0 <= i < j < self.months.len() ==> (#[trigger] self.months[i]).month != (
            #[trigger] self.months[j]).month
    }

    /// Whether no month counts more than `bound` transactions.
    pub open spec fn within(self, bound: nat) -> bool {
        forall|i: int| 0 <= i < self.months.len() ==> (#[trigger] self.months[i]).within(bound)
    }

    /// What is cached for `month`; a month that was never needed counts as
    /// one without transactions.
    pub open spec fn month_entry(self, month: CalendarMonth) -> MonthView<C> {
        let i = first_match(month_keys(self.months), month);
        if 0 <= i < self.months.len() {
            self.months[i]
        } else {
            MonthView::empty(month)
        }
    }

    /// The summary tree of `month`.
    pub open spec fn summary_of(self, month: CalendarMonth) -> SummaryView<C> {
        self.month_entry(month).summary
    }

    /// The aggregate of the transactions of `month` that have no category.
    pub open spec fn uncategorized_of(self, month: CalendarMonth) -> Totals<C> {
        self.month_entry(month).uncategorized
    }

    /// The amount allocated to the category `id` in `month`, zero where
    /// nothing was ever moved.
    pub open spec fn allocation_of(self, month: CalendarMonth, id: int) -> C {
        let k = first_match(allocation_keys(self.allocations), (month, id));
        if 0 <= k < self.allocations.len() {
            self.allocations[k].amount
        } else {
            C::zero_value()
        }
    }

    /// The cache after a transaction of `month` was recorded.
    pub open spec fn record(self, month: CalendarMonth, amount: C, path: Path) -> CacheView<C> {
        let i = first_match(month_keys(self.months), month);
        CacheView {
            months: if 0 <= i < self.months.len() {
                self.months.update(i, self.months[i].record(amount, path))
            } else {
                self.months.push(MonthView::empty(month).record(amount, path))
            },
            allocations: self.allocations,
        }
    }

    /// The cache after the transaction was recorded under the month of its
    /// date.
    pub open spec fn record_transaction(self, t: TransactionView<C>) -> CacheView<C> {
        self.record(t.date().month_of(), t.amount, t.category)
    }

    /// The cache after each of the transactions was recorded in turn.
    pub open spec fn record_all(self, transactions: Seq<TransactionView<C>>) -> CacheView<C>
        decreases transactions.len(),
    {
        if transactions.len() == 0 {
            self
        } else {
            self.record_all(transactions.drop_last()).record_transaction(transactions.last())
        }
    }
}

impl<C: Currency> BudgetView<C> {
    /// The budget without transactions, categories or transfers.
    pub open spec fn empty() -> BudgetView<C> {
        BudgetView { ledger: Seq::empty(), cache: CacheView::empty(), registry: Seq::empty() }
    }

    /// Whether the ledger is ordered, the cache well formed, and no month
    /// counts more transactions than the ledger holds.
    pub open spec fn wf(self) -> bool {
        &&& dates_sorted(self.ledger)
        &&& self.cache.wf()
        &&& self.cache.within(self.ledger.len())
    }

    /// Whether what is cached for `month` agrees with the ledger: the root
    /// of the summary tree is the total of the ledger's transactions of
    /// the month, and the uncategorized aggregate the total of those among
    /// them that have no category, each taken in the order of the ledger.
    pub open spec fn totals_match_ledger(self, month: CalendarMonth) -> bool {
        &&& self.cache.summary_of(month).data == total_of(amounts(in_month(self.ledger, month)))
        &&& self.cache.uncategorized_of(month) == total_of(
            amounts(uncategorized_in_month(self.ledger, month)),
        )
    }

    /// The budget after the transaction was added.
    pub open spec fn add(self, t: TransactionView<C>) -> BudgetView<C> {
        BudgetView {
            ledger: placed(self.ledger, t),
            cache: self.cache.record_transaction(t),
            registry: self.registry,
        }
    }

    /// The budget after each of the transactions was added in turn.
    pub open spec fn add_all(self, transactions: Seq<TransactionView<C>>) -> BudgetView<C>
        decreases transactions.len(),
    {
        if transactions.len() == 0 {
            self
        } else {
            self.add_all(transactions.drop_last()).add(transactions.last())
        }
    }

    /// The budget after `amount` was moved from the category `from` to the
    /// category `to` in `month`. Both are registered first, `from` before
    /// `to`; then `from` is debited and `to` credited.
    pub open spec fn transfer(
        self,
        amount: C,
        from: Seq<char>,
        to: Seq<char>,
        month: CalendarMonth,
    ) -> BudgetView<C> {
        let registry = ensured(ensured(self.registry, from), to);
        let from_id = first_match(registry, from);
        let to_id = first_match(registry, to);
        BudgetView {
            ledger: self.ledger,
            cache: CacheView {
                months: self.cache.months,
                allocations: adjusted(
                    adjusted(self.cache.allocations, month, from_id, amount, false),
                    month,
                    to_id,
                    amount,
                    true,
                ),
            },
            registry,
        }
    }
}

impl<C: Currency> View for MonthSummary<C> {
    type V = MonthView<C>;

    closed spec fn view(&self) -> MonthView<C> {
        MonthView { month: self.month, summary: self.summary@, uncategorized: self.uncategorized@ }
    }
}

impl<C: Currency> MonthSummary<C> {
    pub fn month(&self) -> (r: CalendarMonth)
        ensures
            r == self@.month,
    {
        self.month
    }

    /// The summary tree of the month.
    pub fn summary(&self) -> (r: &Summary<C>)
        ensures
            r@ == self@.summary,
    {
        &self.summary
    }

    /// The aggregate of the transactions of the month without a category.
    pub fn uncategorized(&self) -> (r: SummaryData<C>)
        ensures
            r@ == self@.uncategorized,
    {
        self.uncategorized
    }
}

impl<C: Currency> View for Cache<C> {
    type V = CacheView<C>;

    closed spec fn view(&self) -> CacheView<C> {
        CacheView {
            months: self.cached_summaries@.map_values(|e: MonthSummary<C>| e@),
            allocations: self.allocations@,
        }
    }
}

impl<C: Currency> Default for Cache<C> {
    /// The cache of a budget without transactions or transfers.
    fn default() -> (r: Cache<C>)
        ensures
            r@ == CacheView::<C>::empty(),
            r@.wf(),
            r@.within(0),
    {
        let r = Cache { cached_summaries: Vec::new(), allocations: Vec::new() };
        assert(r@.months =~= Seq::empty());
        r
    }
}

impl<C: Currency> Cache<C> {
    /// The position of the summary of `month`, or the number of months
    /// where it has none.
    fn find_month(&self, month: CalendarMonth) -> (i: usize)
        ensures
            i == first_match(month_keys(self@.months), month),
            i <= self@.months.len(),
    {
        let mut i: usize = 0;
        while i < self.cached_summaries.len()
            invariant
                i <= self.cached_summaries.len(),
                forall|k: int| 0 <= k < i ==> month_keys(self@.months)[k] != month,
            ensures
                i <= self.cached_summaries.len(),
                i < self.cached_summaries.len() ==> month_keys(self@.months)[i as int] == month,
                forall|k: int| 0 <= k < i ==> month_keys(self@.months)[k] != month,
            decreases self.cached_summaries.len() - i,
        {
            if self.cached_summaries[i].month == month {
                break;
            }
            i += 1;
        }
        proof {
            lemma_first_match_unique(month_keys(self@.months), month, i as int);
        }
        i
    }

    /// The position of the allocation of the category `id` in `month`, or
    /// the number of allocations where there is none.
    fn find_allocation(&self, month: CalendarMonth, id: usize) -> (k: usize)
        ensures
            k == first_match(allocation_keys(self@.allocations), (month, id as int)),
            k <= self@.allocations.len(),
    {
        let mut k: usize = 0;
        while k < self.allocations.len()
            invariant
                k <= self.allocations.len(),
                forall|j: int|
                    0 <= j < k ==> allocation_keys(self@.allocations)[j] != (month, id as int),
            ensures
                k <= self.allocations.len(),
                k < self.allocations.len() ==> allocation_keys(self@.allocations)[k as int] == (
                    month,
                    id as int,
                ),
                forall|j: int|
                    0 <= j < k ==> allocation_keys(self@.allocations)[j] != (month, id as int),
            decreases self.allocations.len() - k,
        {
            if self.allocations[k].month == month && self.allocations[k].category == id {
                break;
            }
            k += 1;
        }
        proof {
            lemma_first_match_unique(
                allocation_keys(self@.allocations),
                (month, id as int),
                k as int,
            );
        }
        k
    }

    /// Records a transaction of the given month, amount and category.
    pub fn record(&mut self, month: CalendarMonth, amount: C, category: &Category)
        requires
            old(self)@.wf(),
            old(self)@.within((u64::MAX - 1) as nat),
        ensures
            final(self)@ == old(self)@.record(month, amount, category@),
            final(self)@.wf(),
            forall|bound: nat| #[trigger]
                old(self)@.within(bound) ==> final(self)@.within(bound + 1),
    {
        let ghost before = self@;
        let i = self.find_month(month);
        proof {
            lemma_first_match(month_keys(before.months), month);
        }
        if i == self.cached_summaries.len() {
            self.cached_summaries.push(
                MonthSummary {
                    month,
                    summary: Summary::default(),
                    uncategorized: SummaryData::default(),
                },
            );
            assert(self@.months =~= before.months.push(MonthView::empty(month)));
        }
        let ghost mid = self@;
        assert(mid.months[i as int].within((u64::MAX - 1) as nat));
        assert(mid.months[i as int].summary.wf());
        assert(mid.months[i as int].month == month);
        assert(category@.skip(0) =~= category@);
        let entry = &mut self.cached_summaries[i];
        entry.summary.add_recursive(amount, category, 0);
        if category.is_empty() {
            entry.uncategorized.accumulate(amount);
        }
        proof {
            let after = self@;
            lemma_insert_wf(mid.months[i as int].summary, amount, category@);
            assert(after.months =~= mid.months.update(
                i as int,
                mid.months[i as int].record(amount, category@),
            ));
            assert(after.months =~= before.record(month, amount, category@).months);
            assert forall|a: int, b: int| 0 <= a < b < after.months.len() implies (
            #[trigger] after.months[a]).month != (#[trigger] after.months[b]).month by {
                assert(after.months[a].month == mid.months[a].month);
                assert(after.months[b].month == mid.months[b].month);
                if b < before.months.len() {
                    assert(mid.months[a] == before.months[a]);
                    assert(mid.months[b] == before.months[b]);
                } else {
                    assert(mid.months[a] == before.months[a]);
                    assert(month_keys(before.months)[a] == before.months[a].month);
                }
            }
            assert forall|a: int| 0 <= a < after.months.len() implies (
            #[trigger] after.months[a]).summary.wf() by {
                if a != i {
                    assert(after.months[a] == before.months[a]);
                }
            }
            assert forall|bound: nat| #[trigger] before.within(bound) implies after.within(
                bound + 1,
            ) by {
                assert forall|a: int| 0 <= a < after.months.len() implies (
                #[trigger] after.months[a]).within(bound + 1) by {
                    if a != i {
                        assert(after.months[a] == before.months[a]);
                        assert(before.months[a].within(bound));
                    } else if i < before.months.len() {
                        assert(before.months[a].within(bound));
                    }
                }
            }
        }
    }

    /// Whether no month counts more than `bound` transactions.
    pub fn counts_within(&self, bound: usize) -> (r: bool)
        ensures
            r == self@.within(bound as nat),
    {
        let mut i: usize = 0;
        while i < self.cached_summaries.len()
            invariant
                i <= self.cached_summaries.len(),
                forall|k: int| 0 <= k < i ==> (#[trigger] self@.months[k]).within(bound as nat),
            decreases self.cached_summaries.len() - i,
        {
            let entry = &self.cached_summaries[i];
            if entry.summary.data().n() > bound as u64 || entry.uncategorized.n() > bound as u64 {
                assert(!self@.months[i as int].within(bound as nat));
                return false;
            }
            i += 1;
        }
        true
    }

    /// The summary of `month`, where the month was ever needed.
    pub fn summary(&self, month: CalendarMonth) -> (r: Option<&MonthSummary<C>>)
        ensures
            r is Some <==> month_keys(self@.months).contains(month),
            r matches Some(e) ==> e@ == self@.month_entry(month),
            r is None ==> self@.month_entry(month) == MonthView::<C>::empty(month),
    {
        let i = self.find_month(month);
        proof {
            lemma_first_match(month_keys(self@.months), month);
        }
        if i < self.cached_summaries.len() {
            Some(&self.cached_summaries[i])
        } else {
            None
        }
    }

    /// The months that have a summary, in the order in which they were
    /// first needed.
    pub fn months(&self) -> (r: Vec<CalendarMonth>)
        ensures
            r@ == month_keys(self@.months),
    {
        let mut out: Vec<CalendarMonth> = Vec::new();
        let mut i: usize = 0;
        while i < self.cached_summaries.len()
            invariant
                i <= self.cached_summaries.len(),
                out@ == month_keys(self@.months).take(i as int),
            decreases self.cached_summaries.len() - i,
        {
            out.push(self.cached_summaries[i].month);
            assert(out@ =~= month_keys(self@.months).take(i + 1));
            i += 1;
        }
        assert(out@ =~= month_keys(self@.months));
        out
    }

    /// The table of allocations, in the order in which they were first
    /// needed.
    pub fn allocations(&self) -> (r: &Vec<Allocation<C>>)
        ensures
            r@ == self@.allocations,
    {
        &self.allocations
    }

    /// The amount allocated to the category `id` in `month`.
    pub fn allocation(&self, month: CalendarMonth, id: usize) -> (r: C)
        ensures
            r == self@.allocation_of(month, id as int),
    {
        let k = self.find_allocation(month, id);
        if k < self.allocations.len() {
            self.allocations[k].amount
        } else {
            C::zero()
        }
    }

    /// Gives `amount` to the allocation of the category `id` in `month`,
    /// or takes it from there.
    fn adjust(&mut self, month: CalendarMonth, id: usize, amount: C, credit: bool)
        ensures
            final(self)@.months == old(self)@.months,
            final(self)@.allocations == adjusted(
                old(self)@.allocations,
                month,
                id as int,
                amount,
                credit,
            ),
    {
        let k = self.find_allocation(month, id);
        let mut value = if k < self.allocations.len() {
            self.allocations[k].amount
        } else {
            C::zero()
        };
        if credit {
            value.accumulate(amount);
        } else {
            value.deduct(amount);
        }
        let entry = Allocation { month, category: id, amount: value };
        if k < self.allocations.len() {
            self.allocations[k] = entry;
        } else {
            self.allocations.push(entry);
        }
    }
}

impl<C: Currency> View for Budget<C> {
    type V = BudgetView<C>;

    closed spec fn view(&self) -> BudgetView<C> {
        BudgetView {
            ledger: self.transactions@,
            cache: self.cache@,
            registry: texts(self.registry@),
        }
    }
}

impl<C: Currency> Default for Budget<C> {
    /// The budget without transactions, categories or transfers.
    fn default() -> (r: Budget<C>)
        ensures
            r@ == BudgetView::<C>::empty(),
            r.wf(),
    {
        let r = Budget {
            transactions: Ledger::default(),
            cache: Cache::default(),
            registry: Vec::new(),
        };
        assert(r@.registry =~= Seq::empty());
        r
    }
}

impl<C: Currency> Budget<C> {
    /// Whether the ledger is ordered, the cache well formed, and no month
    /// counts more transactions than the ledger holds.
    pub open spec fn wf(&self) -> bool {
        self@.wf()
    }

    /// A budget of a ledger and a cache that was kept for it, with an empty
    /// registry.
    pub fn new(transactions: Ledger<C>, cache: Cache<C>) -> (r: Budget<C>)
        requires
            transactions.wf(),
            cache@.wf(),
            cache@.within(transactions@.len()),
        ensures
            r@ == (BudgetView {
                ledger: transactions@,
                cache: cache@,
                registry: Seq::<Seq<char>>::empty(),
            }),
            r.wf(),
    {
        let r = Budget { transactions, cache, registry: Vec::new() };
        assert(r@.registry =~= Seq::empty());
        r
    }

    /// The budget of the given transactions, added in their order.
    pub fn from_transactions(transactions: Vec<Transaction<C>>) -> (r: Budget<C>)
        ensures
            r@ == BudgetView::<C>::empty().add_all(views(transactions@)),
            r.wf(),
            adds_in_any_order::<C>() ==> forall|month: CalendarMonth| #[trigger]
                r@.totals_match_ledger(month),
    {
        proof {
            if adds_in_any_order::<C>() {
                assert forall|month: CalendarMonth|
                    (#[trigger] BudgetView::<C>::empty().add_all(
                        views(transactions@),
                    ).totals_match_ledger(month)) by {
                    lemma_totals_match_ledger(views(transactions@), month);
                }
            }
        }
        let mut b = Budget::default();
        let mut i: usize = 0;
        let ghost all = views(transactions@);
        assert(all.take(0) =~= Seq::<TransactionView<C>>::empty());
        while i < transactions.len()
            invariant
                i <= transactions.len(),
                all == views(transactions@),
                b.wf(),
                b@ == BudgetView::<C>::empty().add_all(all.take(i as int)),
            decreases transactions.len() - i,
        {
            let t = transactions[i].clone();
            proof {
                assert(all.take(i + 1).drop_last() =~= all.take(i as int));
                assert(all.take(i + 1).last() == t@);
            }
            b.add(t);
            i += 1;
        }
        assert(all.take(transactions.len() as int) =~= all);
        b
    }

    /// The budget of the given transactions, added in their order, with the
    /// given registry and table of allocations: what a stored budget is
    /// rebuilt from.
    pub fn restore(
        transactions: Vec<Transaction<C>>,
        registry: Vec<String>,
        allocations: Vec<Allocation<C>>,
    ) -> (r: Budget<C>)
        ensures
            r@.ledger == BudgetView::<C>::empty().add_all(views(transactions@)).ledger,
            r@.cache.months == BudgetView::<C>::empty().add_all(views(transactions@)).cache.months,
            r@.cache.allocations == allocations@,
            r@.registry == texts(registry@),
            r.wf(),
    {
        let mut b = Budget::from_transactions(transactions);
        b.registry = registry;
        b.cache.allocations = allocations;
        b
    }

    /// Adds a transaction: it takes its place in the ledger and is recorded
    /// in the summary of the month of its date.
    pub fn add(&mut self, t: Transaction<C>)
        requires
            old(self).wf(),
        ensures
            final(self)@ == old(self)@.add(t@),
            final(self).wf(),
            adds_in_any_order::<C>() ==> forall|month: CalendarMonth| #[trigger]
                old(self)@.totals_match_ledger(month) ==> final(self)@.totals_match_ledger(month),
    {
        proof {
            if adds_in_any_order::<C>() {
                assert forall|month: CalendarMonth| #[trigger]
                    old(self)@.totals_match_ledger(month) implies old(self)@.add(
                    t@,
                ).totals_match_ledger(month) by {
                    lemma_add_keeps_totals(old(self)@, t@, month);
                }
            }
        }
        let amount = *t.amount();
        let category = t.category().clone();
        let month = t.date().calendar_month();
        self.transactions.add(t);
        let held = self.transactions.len();
        assert(old(self)@.ledger.len() + 1 == held);
        assert(old(self)@.ledger.len() < u64::MAX);
        assert(old(self)@.cache.within((u64::MAX - 1) as nat)) by {
            assert forall|i: int| 0 <= i < old(self)@.cache.months.len() implies (
            #[trigger] old(self)@.cache.months[i]).within((u64::MAX - 1) as nat) by {
                assert(old(self)@.cache.months[i].within(old(self)@.ledger.len()));
            }
        }
        self.cache.record(month, amount, &category);
    }

    /// The ledger.
    pub fn ledger(&self) -> (r: &Ledger<C>)
        ensures
            r@ == self@.ledger,
    {
        &self.transactions
    }

    /// The cached summaries and allocations.
    pub fn cache(&self) -> (r: &Cache<C>)
        ensures
            r@ == self@.cache,
    {
        &self.cache
    }

    /// The names of the registered categories; the position of a name is
    /// the identifier of its category.
    pub fn categories(&self) -> (r: &Vec<String>)
        ensures
            texts(r@) == self@.registry,
    {
        &self.registry
    }

    /// Every node of the summary tree of `month` with its full path, in
    /// pre-order; a month without transactions gives the empty root alone.
    pub fn flatten_summary(&self, month: CalendarMonth) -> (r: Vec<(Category, SummaryData<C>)>)
        ensures
            flat_view(r@) == self@.cache.summary_of(month).flatten(Seq::empty()),
    {
        let root = Category::new();
        match self.cache.summary(month) {
            Some(entry) => entry.summary().flatten_recursive(&root),
            None => Summary::<C>::default().flatten_recursive(&root),
        }
    }

    /// The aggregate of the transactions of `month` whose category is
    /// `category` or lies below it; the aggregate of no transactions where
    /// the month has no such node.
    pub fn aggregate(&self, month: CalendarMonth, category: &Category) -> (r: SummaryData<C>)
        ensures
            r@ == match self@.cache.summary_of(month).at(category@) {
                Some(totals) => totals,
                None => Totals::<C>::zero(),
            },
    {
        match self.cache.summary(month) {
            Some(entry) => match entry.summary().lookup(category) {
                Some(data) => data,
                None => SummaryData::default(),
            },
            None => {
                proof {
                    let nothing = SummaryView::<C>::empty();
                    assert(nothing.names() =~= Seq::empty());
                }
                SummaryData::default()
            },
        }
    }

    /// The aggregate of the transactions of `month` that have no category.
    pub fn uncategorized(&self, month: CalendarMonth) -> (r: SummaryData<C>)
        ensures
            r@ == self@.cache.uncategorized_of(month),
    {
        match self.cache.summary(month) {
            Some(entry) => entry.uncategorized(),
            None => SummaryData::default(),
        }
    }

    /// The amount allocated in `month` to the first category named `name`;
    /// zero where no category has the name.
    pub fn allocation(&self, month: CalendarMonth, name: &str) -> (r: C)
        ensures
            r == if self@.registry.contains(name@) {
                self@.cache.allocation_of(month, first_match(self@.registry, name@))
            } else {
                C::zero_value()
            },
    {
        let name = String::from_str(name);
        let id = find_text(&self.registry, &name);
        proof {
            lemma_first_match(self@.registry, name@);
        }
        if id < self.registry.len() {
            self.cache.allocation(month, id)
        } else {
            C::zero()
        }
    }

    /// Registers a category. A name that the registry has already is
    /// reported and changes nothing.
    pub fn add_category(&mut self, name: &str) -> (r: Result<String, String>)
        ensures
            r is Ok <==> !old(self)@.registry.contains(name@),
            r matches Ok(n) ==> n@ == name@ && final(self)@.registry == old(self)@.registry.push(
                name@,
            ),
            r matches Err(n) ==> n@ == name@ && final(self)@.registry == old(self)@.registry,
            final(self)@.registry == ensured(old(self)@.registry, name@),
            final(self)@.registry.contains(name@),
            final(self)@.ledger == old(self)@.ledger,
            final(self)@.cache == old(self)@.cache,
            old(self).wf() ==> final(self).wf(),
    {
        let name = String::from_str(name);
        let i = find_text(&self.registry, &name);
        proof {
            lemma_first_match(self@.registry, name@);
            lemma_add_category_twice(self@.registry, name@);
        }
        if i < self.registry.len() {
            Err(self.registry[i].clone())
        } else {
            let reply = name.clone();
            assert(texts(self.registry@.push(name)) =~= texts(self.registry@).push(name@));
            self.registry.push(name);
            Ok(reply)
        }
    }

    /// The identifier of the first category named `name`, which is
    /// registered first where the registry lacks it.
    fn ensure_category(&mut self, name: &str) -> (id: usize)
        ensures
            final(self)@.registry == ensured(old(self)@.registry, name@),
            id == first_match(final(self)@.registry, name@),
            id < final(self)@.registry.len(),
            final(self)@.ledger == old(self)@.ledger,
            final(self)@.cache == old(self)@.cache,
    {
        let name = String::from_str(name);
        let id = find_text(&self.registry, &name);
        proof {
            lemma_first_match(self@.registry, name@);
            lemma_first_match_push(self@.registry, name@, name@);
        }
        if id == self.registry.len() {
            assert(texts(self.registry@.push(name)) =~= texts(self.registry@).push(name@));
            self.registry.push(name);
        }
        id
    }

    /// Renames the first registered category named `from`, and gives the
    /// first transaction whose written category is `from` the category that
    /// `to` writes. The cached summaries are left as they are.
    pub fn rename_category(&mut self, from: &str, to: &str)
        ensures
            final(self)@.registry == renamed(old(self)@.registry, from@, to@),
            final(self)@.ledger == recategorised(old(self)@.ledger, from@, to@),
            final(self)@.cache == old(self)@.cache,
            old(self).wf() ==> final(self).wf(),
    {
        let from_name = String::from_str(from);
        let i = find_text(&self.registry, &from_name);
        if i < self.registry.len() {
            let to_name = String::from_str(to);
            assert(texts(self.registry@.update(i as int, to_name)) =~= texts(
                self.registry@,
            ).update(i as int, to@));
            self.registry[i] = to_name;
        }
        let j = self.transactions.find_category(&from_name);
        if j < self.transactions.len() {
            let category = match Category::parse(to) {
                Ok(c) => c,
                Err(_) => Category::new(),
            };
            self.transactions.set_category_at(j, category);
        }
    }

    /// Moves `amount` from the allocation of one category to that of
    /// another, in the month of `date`. Categories that are not registered
    /// yet are registered. The ledger and the summaries are not touched.
    pub fn transfer(&mut self, amount: C, from_category: &str, to_category: &str, date: Timestamp)
        -> (r: Result<(), TransferError>)
        ensures
            r is Ok,
            final(self)@ == old(self)@.transfer(
                amount,
                from_category@,
                to_category@,
                date.month_of(),
            ),
            old(self).wf() ==> final(self).wf(),
    {
        let month = date.calendar_month();
        let ghost before = self@;
        let from_id = self.ensure_category(from_category);
        let ghost mid = self@;
        let to_id = self.ensure_category(to_category);
        proof {
            lemma_first_match(mid.registry, from_category@);
            lemma_first_match_push(mid.registry, to_category@, from_category@);
        }
        self.cache.adjust(month, from_id, amount, false);
        self.cache.adjust(month, to_id, amount, true);
        assert(self@.cache =~= before.transfer(
            amount,
            from_category@,
            to_category@,
            date.month_of(),
        ).cache);
        Ok(())
    }
}

/// Recording a transaction changes what is cached for its month, and for no
/// other month.
pub proof fn lemma_record_local<C: Currency>(
    c: CacheView<C>,
    month: CalendarMonth,
    amount: C,
    path: Path,
    q: CalendarMonth,
)
    ensures
        c.record(month, amount, path).month_entry(q) == if q == month {
            c.month_entry(month).record(amount, path)
        } else {
            c.month_entry(q)
        },
{
    let keys = month_keys(c.months);
    let r = c.record(month, amount, path);
    let i = first_match(keys, month);
    let j = first_match(keys, q);
    lemma_first_match(keys, month);
    lemma_first_match(keys, q);
    if 0 <= i < c.months.len() {
        assert(keys[i] == c.months[i].month);
        assert(month_keys(r.months) =~= keys);
        if q != month && j < c.months.len() {
            assert(keys[j] == q);
            assert(r.months[j] == c.months[j]);
        }
    } else {
        assert(month_keys(r.months) =~= keys.push(month));
        lemma_first_match_push(keys, month, q);
        if q != month && j < c.months.len() {
            assert(r.months[j] == c.months[j]);
        }
    }
}

/// The summary tree of a month is the tree of the transactions of that
/// month alone, added in their order; the uncategorized aggregate of the
/// month is the total of those among them that have no category.
pub proof fn lemma_month_tree<C: Currency>(
    transactions: Seq<TransactionView<C>>,
    month: CalendarMonth,
)
    ensures
        CacheView::<C>::empty().record_all(transactions).summary_of(month) == SummaryView::<
            C,
        >::empty().insert_all(in_month(transactions, month)),
        CacheView::<C>::empty().record_all(transactions).uncategorized_of(month) == total_of(
            amounts(uncategorized_in_month(transactions, month)),
        ),
    decreases transactions.len(),
{
    let start = CacheView::<C>::empty();
    if transactions.len() == 0 {
        reveal(Seq::filter);
        assert(in_month(transactions, month) =~= Seq::empty());
        assert(uncategorized_in_month(transactions, month) =~= Seq::empty());
        assert(amounts(Seq::<TransactionView<C>>::empty()) =~= Seq::empty());
        assert(month_keys(start.months) =~= Seq::empty());
    } else {
        let front = transactions.drop_last();
        let last = transactions.last();
        lemma_month_tree(front, month);
        lemma_record_local(
            start.record_all(front),
            last.date().month_of(),
            last.amount,
            last.category,
            month,
        );
        lemma_filter_last(transactions, falls_in(month));
        lemma_filter_last(transactions, falls_in_bare(month));
        if last.date().month_of() == month {
            lemma_insert_all_step(SummaryView::<C>::empty(), in_month(front, month), last);
            if last.category.len() == 0 {
                let bare = uncategorized_in_month(front, month);
                assert(amounts(bare.push(last)).drop_last() =~= amounts(bare));
            }
        }
    }
}

/// The root of the summary tree of a month is the total of the amounts of
/// all transactions of that month, with or without a category, in the order
/// in which they were added; those without a category are counted in the
/// uncategorized aggregate as well.
pub proof fn lemma_month_root_is_total<C: Currency>(
    transactions: Seq<TransactionView<C>>,
    month: CalendarMonth,
)
    ensures
        CacheView::<C>::empty().record_all(transactions).summary_of(month).data == total_of(
            amounts(in_month(transactions, month)),
        ),
        CacheView::<C>::empty().record_all(transactions).uncategorized_of(month) == total_of(
            amounts(uncategorized_in_month(transactions, month)),
        ),
{
    lemma_month_tree(transactions, month);
    lemma_root_is_total(in_month(transactions, month));
}

/// A budget that was built by adding transactions one at a time caches what
/// recording the same transactions in the same order gives, and adding one
/// more transaction is one more step of either.
pub proof fn lemma_add_all_replays<C: Currency>(
    transactions: Seq<TransactionView<C>>,
    t: TransactionView<C>,
)
    ensures
        BudgetView::<C>::empty().add_all(transactions).cache == CacheView::<C>::empty().record_all(
            transactions,
        ),
        BudgetView::<C>::empty().add_all(transactions.push(t)) == BudgetView::<C>::empty().add_all(
            transactions,
        ).add(t),
    decreases transactions.len(),
{
    assert(transactions.push(t).drop_last() =~= transactions);
    if transactions.len() > 0 {
        lemma_add_all_replays(transactions.drop_last(), transactions.last());
    }
}

/// Registering a name twice registers it once: after the first time the
/// registry has the name, the second time changes nothing, and the
/// registry has grown by one entry if it lacked the name and not at all
/// if it had it.
pub proof fn lemma_add_category_twice(registry: Seq<Seq<char>>, name: Seq<char>)
    ensures
        ensured(registry, name).contains(name),
        ensured(ensured(registry, name), name) == ensured(registry, name),
        ensured(registry, name).len() == if registry.contains(name) {
            registry.len()
        } else {
            registry.len() + 1
        },
{
    if !registry.contains(name) {
        assert(registry.push(name)[registry.len() as int] == name);
    }
}

/// The total of the transactions that a test keeps, after one more
/// transaction took its place in the list: the old total with its amount
/// where the test keeps it, the old total where not.
proof fn lemma_total_of_placed<C: Currency>(
    ledger: Seq<TransactionView<C>>,
    t: TransactionView<C>,
    pred: spec_fn(TransactionView<C>) -> bool,
)
    requires
        adds_in_any_order::<C>(),
    ensures
        total_of(amounts(placed(ledger, t).filter(pred))) == if pred(t) {
            total_of(amounts(ledger.filter(pred))).with(t.amount)
        } else {
            total_of(amounts(ledger.filter(pred)))
        },
{
    let p = insertion_point(ledger, date_key(t));
    lemma_insertion_point(ledger, date_key(t));
    lemma_filter_insert(ledger, p, t, pred);
    if pred(t) {
        let kept = ledger.filter(pred);
        let q = ledger.take(p).filter(pred).len() as int;
        assert(amounts(kept.insert(q, t)) =~= amounts(kept).insert(q, t.amount));
        lemma_total_of_insert(amounts(kept), q, t.amount);
    }
}

/// Where amounts add up to the same whatever their order, adding a
/// transaction keeps the cache in agreement with the ledger: for every
/// month the root of the summary tree stays the total, in sum and in
/// number, of all transactions of the ledger that fall in the month, with
/// or without a category.
pub proof fn lemma_add_keeps_totals<C: Currency>(
    b: BudgetView<C>,
    t: TransactionView<C>,
    month: CalendarMonth,
)
    requires
        adds_in_any_order::<C>(),
        b.totals_match_ledger(month),
    ensures
        b.add(t).totals_match_ledger(month),
{
    let after = b.add(t);
    let before = b.cache.month_entry(month);
    lemma_record_local(b.cache, t.date().month_of(), t.amount, t.category, month);
    lemma_total_of_placed(b.ledger, t, falls_in(month));
    lemma_total_of_placed(b.ledger, t, falls_in_bare(month));
    assert(after.ledger == placed(b.ledger, t));
    if t.date().month_of() == month {
        assert(after.cache.month_entry(month) == before.record(t.amount, t.category));
        assert(after.cache.summary_of(month).data == before.summary.data.with(t.amount));
        assert(falls_in::<C>(month)(t));
        if t.category.len() == 0 {
            assert(after.cache.uncategorized_of(month) == before.uncategorized.with(t.amount));
            assert(falls_in_bare::<C>(month)(t));
        } else {
            assert(after.cache.uncategorized_of(month) == before.uncategorized);
            assert(!falls_in_bare::<C>(month)(t));
        }
    } else {
        assert(after.cache.month_entry(month) == before);
        assert(!falls_in::<C>(month)(t));
        assert(!falls_in_bare::<C>(month)(t));
    }
}

/// Where amounts add up to the same whatever their order, the cache of a
/// budget that was built by adding transactions agrees with its ledger in
/// every month, in whatever order the transactions came.
pub proof fn lemma_totals_match_ledger<C: Currency>(
    transactions: Seq<TransactionView<C>>,
    month: CalendarMonth,
)
    requires
        adds_in_any_order::<C>(),
    ensures
        BudgetView::<C>::empty().add_all(transactions).totals_match_ledger(month),
    decreases transactions.len(),
{
    let start = BudgetView::<C>::empty();
    if transactions.len() == 0 {
        reveal(Seq::filter);
        assert(in_month(start.ledger, month) =~= Seq::empty());
        assert(uncategorized_in_month(start.ledger, month) =~= Seq::empty());
        assert(amounts(Seq::<TransactionView<C>>::empty()) =~= Seq::empty());
        assert(month_keys(start.cache.months) =~= Seq::empty());
    } else {
        lemma_totals_match_ledger(transactions.drop_last(), month);
        lemma_add_keeps_totals(
            start.add_all(transactions.drop_last()),
            transactions.last(),
            month,
        );
    }
}

} // verus!
