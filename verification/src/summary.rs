//! The summary tree: running aggregates, one node per category prefix.

use vstd::prelude::*;
use crate::category::Category;
use crate::currency::{adds_in_any_order, Currency};
use crate::lookup::{
    first_match,
    lemma_filter_last,
    lemma_first_match,
    lemma_first_match_push,
    lemma_first_match_unique,
};
use crate::transaction::{Transaction, TransactionView};

verus! {

/// The aggregate of a set of transactions: how many they are and what
/// their amounts add up to.
#[derive(Clone, Copy, Debug)]
pub struct SummaryData<C> {
    n: u64,
    sum: C,
}

/// An aggregate with an unbounded count.
pub struct Totals<C> {
    pub n: nat,
    pub sum: C,
}

/// One node of the summary tree: the aggregate of every transaction at or
/// below its path, and the nodes one level down, each under its segment, in
/// the order in which they were first needed.
#[derive(Debug)]
pub struct Summary<C: Currency> {
    data: SummaryData<C>,
    subcategories: Vec<(String, Summary<C>)>,
}

/// A summary tree as a value: the aggregate and the children by name.
pub struct SummaryView<C> {
    pub data: Totals<C>,
    pub children: Seq<(Seq<char>, SummaryView<C>)>,
}

/// A category path.
pub type Path = Seq<Seq<char>>;

impl<C: Currency> Totals<C> {
    /// The aggregate of no transactions.
    pub open spec fn zero() -> Totals<C> {
        Totals { n: 0, sum: C::zero_value() }
    }

    /// The aggregate with one more transaction of the given amount.
    pub open spec fn with(self, amount: C) -> Totals<C> {
        Totals { n: self.n + 1, sum: self.sum.plus(amount) }
    }
}

/// The aggregate of the given amounts, accumulated in their order.
pub open spec fn total_of<C: Currency>(amounts: Seq<C>) -> Totals<C>
    decreases amounts.len(),
{
    if amounts.len() == 0 {
        Totals::zero()
    } else {
        total_of(amounts.drop_last()).with(amounts.last())
    }
}

impl<C: Currency> SummaryView<C> {
    /// The tree of no transactions.
    pub open spec fn empty() -> SummaryView<C> {
        SummaryView { data: Totals::zero(), children: Seq::empty() }
    }

    /// The segments under which the children stand.
    pub open spec fn names(self) -> Seq<Seq<char>> {
        self.children.map_values(|c: (Seq<char>, SummaryView<C>)| c.0)
    }

    /// Whether no two children of a node share a segment and no child counts
    /// more transactions than its parent, throughout the tree.
    pub open spec fn wf(self) -> bool
        decreases self,
    {
        &&& forall|i: int, j: int|
            0 <= i < j < self.children.len() ==> (#[trigger] self.children[i]).0
                != (#[trigger] self.children[j]).0
        &&& forall|i: int|
            0 <= i < self.children.len() ==> {
                &&& (#[trigger] self.children[i]).1.data.n <= self.data.n
                &&& self.children[i].1.wf()
            }
    }

    /// The tree after a transaction of the given amount was added under
    /// `path`: the amount goes into this node and into the node of every
    /// prefix of the path, which is made where it is missing.
    pub open spec fn insert(self, amount: C, path: Path) -> SummaryView<C>
        decreases path.len(),
    {
        let data = self.data.with(amount);
        if path.len() == 0 {
            SummaryView { data, children: self.children }
        } else {
            let i = first_match(self.names(), path[0]);
            if 0 <= i < self.children.len() {
                SummaryView {
                    data,
                    children: self.children.update(
                        i,
                        (path[0], self.children[i].1.insert(amount, path.skip(1))),
                    ),
                }
            } else {
                SummaryView {
                    data,
                    children: self.children.push(
                        (path[0], Self::empty().insert(amount, path.skip(1))),
                    ),
                }
            }
        }
    }

    /// The tree after each of the transactions was added in turn.
    pub open spec fn insert_all(self, transactions: Seq<TransactionView<C>>) -> SummaryView<C>
        decreases transactions.len(),
    {
        if transactions.len() == 0 {
            self
        } else {
            self.insert_all(transactions.drop_last()).insert(
                transactions.last().amount,
                transactions.last().category,
            )
        }
    }

    /// The aggregate of the node at `path`, where the tree has one.
    pub open spec fn at(self, path: Path) -> Option<Totals<C>>
        decreases path.len(),
    {
        if path.len() == 0 {
            Some(self.data)
        } else {
            let i = first_match(self.names(), path[0]);
            if 0 <= i < self.children.len() {
                self.children[i].1.at(path.skip(1))
            } else {
                None
            }
        }
    }

    /// The nodes of the tree in pre-order, each with its full path, where
    /// the root stands at `prefix`.
    pub open spec fn flatten(self, prefix: Path) -> Seq<(Path, Totals<C>)>
        decreases self, 1nat, 0nat,
    {
        seq![(prefix, self.data)] + self.flatten_children(prefix, self.children.len())
    }

    /// The nodes of the first `k` subtrees in pre-order, one subtree after
    /// the other.
    pub open spec fn flatten_children(self, prefix: Path, k: nat) -> Seq<(Path, Totals<C>)>
        decreases self, 0nat, k,
    {
        if k == 0 || k > self.children.len() {
            Seq::empty()
        } else {
            self.flatten_children(prefix, (k - 1) as nat) + self.children[k - 1].1.flatten(
                prefix.push(self.children[k - 1].0),
            )
        }
    }
}

/// The amounts of a list of transactions.
pub open spec fn amounts<C>(transactions: Seq<TransactionView<C>>) -> Seq<C> {
    transactions.map_values(|t: TransactionView<C>| t.amount)
}

/// What a list of paired categories and aggregates holds.
pub open spec fn flat_view<C: Currency>(v: Seq<(Category, SummaryData<C>)>) -> Seq<
    (Path, Totals<C>),
> {
    v.map_values(|p: (Category, SummaryData<C>)| (p.0@, p.1@))
}

impl<C: Currency> View for SummaryData<C> {
    type V = Totals<C>;

    closed spec fn view(&self) -> Totals<C> {
        Totals { n: self.n as nat, sum: self.sum }
    }
}

impl<C: Currency> Default for SummaryData<C> {
    /// The aggregate of no transactions.
    fn default() -> (r: SummaryData<C>)
        ensures
            r@ == Totals::<C>::zero(),
    {
        SummaryData { n: 0, sum: C::zero() }
    }
}

impl<C: Currency> SummaryData<C> {
    /// The number of transactions.
    pub fn n(&self) -> (r: u64)
        ensures
            r == self@.n,
    {
        self.n
    }

    /// The sum of the amounts.
    pub fn sum(&self) -> (r: C)
        ensures
            r == self@.sum,
    {
        self.sum
    }

    /// Counts one more transaction of the given amount.
    pub fn accumulate(&mut self, amount: C)
        requires
            old(self)@.n < u64::MAX,
        ensures
            final(self)@ == old(self)@.with(amount),
    {
        self.n = self.n + 1;
        self.sum.accumulate(amount);
    }

    /// Counts the transaction.
    pub fn add(&mut self, t: &Transaction<C>)
        requires
            old(self)@.n < u64::MAX,
        ensures
            final(self)@ == old(self)@.with(t@.amount),
    {
        self.accumulate(*t.amount());
    }
}

impl<C: Currency> View for Summary<C> {
    type V = SummaryView<C>;

    closed spec fn view(&self) -> SummaryView<C> {
        self.tree()
    }
}

impl<C: Currency> Default for Summary<C> {
    /// The tree of no transactions.
    fn default() -> (r: Summary<C>)
        ensures
            r@ == SummaryView::<C>::empty(),
            r@.wf(),
    {
        let r = Summary { data: SummaryData::default(), subcategories: Vec::new() };
        proof {
            r.lemma_view();
            assert(r@.children =~= Seq::empty());
        }
        r
    }
}

impl<C: Currency> Summary<C> {
    /// The tree that this node stands for.
    spec fn tree(&self) -> SummaryView<C>
        decreases self, 1nat, 0nat,
    {
        SummaryView { data: self.data@, children: self.subtrees(self.subcategories@.len()) }
    }

    /// The first `k` children, each with its name and its tree.
    spec fn subtrees(&self, k: nat) -> Seq<(Seq<char>, SummaryView<C>)>
        decreases self, 0nat, k,
    {
        if k == 0 || k > self.subcategories@.len() {
            Seq::empty()
        } else {
            self.subtrees((k - 1) as nat).push(
                (self.subcategories@[k - 1].0@, self.subcategories@[k - 1].1.tree()),
            )
        }
    }

    /// The first `k` children of the view are the first `k` children of the
    /// node.
    proof fn lemma_subtrees(&self, k: nat)
        requires
            k <= self.subcategories@.len(),
        ensures
            self.subtrees(k).len() == k,
            forall|i: int|
                0 <= i < k ==> #[trigger] self.subtrees(k)[i] == (
                    self.subcategories@[i].0@,
                    self.subcategories@[i].1@,
                ),
        decreases k,
    {
        if k > 0 {
            self.lemma_subtrees((k - 1) as nat);
        }
    }

    /// The view of a node is its aggregate and, child by child, the name
    /// and the view of the subtree.
    proof fn lemma_view(&self)
        ensures
            self@.data == self.data@,
            self@.children.len() == self.subcategories@.len(),
            self@.names().len() == self.subcategories@.len(),
            forall|i: int|
                0 <= i < self.subcategories@.len() ==> #[trigger] self@.children[i] == (
                    self.subcategories@[i].0@,
                    self.subcategories@[i].1@,
                ),
            forall|i: int|
                0 <= i < self.subcategories@.len() ==> #[trigger] self@.names()[i]
                    == self.subcategories@[i].0@,
    {
        self.lemma_subtrees(self.subcategories@.len());
    }

    /// Adds the transaction to the root and to the node of every prefix of
    /// its category: each of these nodes, made where it was missing, counts
    /// one more and holds the amount more; every other node is as it was.
    pub fn add(&mut self, t: &Transaction<C>)
        requires
            old(self)@.wf(),
            old(self)@.data.n < u64::MAX,
        ensures
            final(self)@ == old(self)@.insert(t@.amount, t@.category),
            final(self)@.wf(),
            forall|q: Path| #[trigger]
                final(self)@.at(q) == if is_prefix(q, t@.category) {
                    Some(bumped(old(self)@.at(q), t@.amount))
                } else {
                    old(self)@.at(q)
                },
    {
        proof {
            assert forall|q: Path| #[trigger]
                old(self)@.insert(t@.amount, t@.category).at(q) == if is_prefix(
                    q,
                    t@.category,
                ) {
                    Some(bumped(old(self)@.at(q), t@.amount))
                } else {
                    old(self)@.at(q)
                } by {
                lemma_insert_touches_path(old(self)@, t@.amount, t@.category, q);
            }
        }
        assert(t@.category.skip(0) =~= t@.category);
        self.add_recursive(*t.amount(), t.category(), 0);
    }

    /// Adds an amount to this node and to the nodes below it along the
    /// segments of `category` from `depth` on.
    pub fn add_recursive(&mut self, amount: C, category: &Category, depth: usize)
        requires
            depth <= category@.len(),
            old(self)@.wf(),
            old(self)@.data.n < u64::MAX,
        ensures
            final(self)@ == old(self)@.insert(amount, category@.skip(depth as int)),
            final(self)@.wf(),
        decreases category@.len() - depth,
    {
        let ghost before = self@;
        let ghost path = category@.skip(depth as int);
        proof {
            self.lemma_view();
            lemma_insert_wf(before, amount, path);
        }
        self.data.accumulate(amount);
        proof {
            self.lemma_view();
            assert(self@.children =~= before.children);
        }
        if category.depth() > depth {
            let name = category.index(depth);
            let i = self.find_child(name);
            proof {
                lemma_first_match(before.names(), name@);
                assert(path[0] == name@);
                assert(path.skip(1) =~= category@.skip(depth + 1));
            }
            if i == self.subcategories.len() {
                self.subcategories.push((name.clone(), Summary::default()));
                proof {
                    self.lemma_view();
                    assert(self@.children =~= before.children.push(
                        (name@, SummaryView::<C>::empty()),
                    ));
                }
            }
            let ghost mid = self@;
            assert(mid.children[i as int].0 == name@);
            assert(mid.children[i as int].1.wf());
            assert(mid.children[i as int].1.data.n < u64::MAX);
            let child = &mut self.subcategories[i];
            child.1.add_recursive(amount, category, depth + 1);
            proof {
                self.lemma_view();
                assert(self@.children =~= mid.children.update(
                    i as int,
                    (name@, mid.children[i as int].1.insert(amount, path.skip(1))),
                ));
                assert(self@.children =~= before.insert(amount, path).children);
            }
        }
    }

    /// The position of the child that stands under `name`, or the number of
    /// children where there is none.
    fn find_child(&self, name: &String) -> (i: usize)
        ensures
            i == first_match(self@.names(), name@),
            i <= self@.children.len(),
            self@.children.len() == self.subcategories@.len(),
    {
        let mut i: usize = 0;
        proof {
            self.lemma_view();
        }
        while i < self.subcategories.len()
            invariant
                i <= self.subcategories.len(),
                self@.names().len() == self.subcategories@.len(),
                forall|k: int| 0 <= k < i ==> self@.names()[k] != name@,
            ensures
                i <= self.subcategories.len(),
                i < self.subcategories.len() ==> self@.names()[i as int] == name@,
                forall|k: int| 0 <= k < i ==> self@.names()[k] != name@,
            decreases self.subcategories.len() - i,
        {
            proof {
                self.lemma_view();
            }
            if self.subcategories[i].0 == *name {
                break;
            }
            i += 1;
        }
        proof {
            self.lemma_view();
            lemma_first_match_unique(self@.names(), name@, i as int);
        }
        i
    }

    /// The aggregate of the whole tree.
    pub fn data(&self) -> (r: SummaryData<C>)
        ensures
            r@ == self@.data,
    {
        proof {
            self.lemma_view();
        }
        self.data
    }

    /// The aggregate of the node at `category`, where the tree has one.
    pub fn lookup(&self, category: &Category) -> (r: Option<SummaryData<C>>)
        ensures
            match r {
                Some(d) => self@.at(category@) == Some(d@),
                None => self@.at(category@) is None,
            },
    {
        let mut node = self;
        let mut depth: usize = 0;
        assert(category@.skip(0) =~= category@);
        while depth < category.depth()
            invariant
                depth <= category@.len(),
                self@.at(category@) == node@.at(category@.skip(depth as int)),
            decreases category@.len() - depth,
        {
            let name = category.index(depth);
            let i = node.find_child(name);
            proof {
                node.lemma_view();
                assert(category@.skip(depth as int)[0] == name@);
                assert(category@.skip(depth as int).skip(1) =~= category@.skip(depth + 1));
            }
            if i == node.subcategories.len() {
                return None;
            }
            node = &node.subcategories[i].1;
            depth += 1;
        }
        proof {
            node.lemma_view();
        }
        Some(node.data)
    }

    /// The tree of the given transactions, added in their order.
    pub fn from_transactions(transactions: &Vec<Transaction<C>>) -> (r: Summary<C>)
        ensures
            r@ == SummaryView::<C>::empty().insert_all(
                crate::ledger::views(transactions@),
            ),
            r@.wf(),
    {
        let mut s = Summary::default();
        let mut i: usize = 0;
        let ghost all = crate::ledger::views(transactions@);
        assert(all.take(0) =~= Seq::<TransactionView<C>>::empty());
        while i < transactions.len()
            invariant
                i <= transactions.len(),
                all == crate::ledger::views(transactions@),
                s@ == SummaryView::<C>::empty().insert_all(all.take(i as int)),
                s@.wf(),
                s@.data.n == i,
            decreases transactions.len() - i,
        {
            proof {
                assert(all.take(i + 1).drop_last() =~= all.take(i as int));
                assert(all.take(i + 1).last() == transactions@[i as int]@);
            }
            s.add(&transactions[i]);
            i += 1;
        }
        assert(all.take(transactions.len() as int) =~= all);
        s
    }

    /// Every node of the tree with its full path, in pre-order: a node
    /// stands before the nodes below it, and the subtrees follow one another
    /// in the order in which they were first needed.
    pub fn flatten(self) -> (r: Vec<(Category, SummaryData<C>)>)
        ensures
            flat_view(r@) == self@.flatten(Seq::empty()),
    {
        let root = Category::new();
        self.flatten_recursive(&root)
    }

    /// The nodes of the tree in pre-order, where the root stands at `c`.
    pub fn flatten_recursive(&self, c: &Category) -> (r: Vec<(Category, SummaryData<C>)>)
        ensures
            flat_view(r@) == self@.flatten(c@),
        decreases self,
    {
        let mut flattened: Vec<(Category, SummaryData<C>)> = Vec::new();
        flattened.push((c.clone(), self.data));
        proof {
            self.lemma_view();
            assert(flat_view(flattened@) =~= seq![(c@, self@.data)]);
            assert(self@.flatten_children(c@, 0) =~= Seq::empty());
        }
        let mut i: usize = 0;
        while i < self.subcategories.len()
            invariant
                i <= self.subcategories.len(),
                flat_view(flattened@) == seq![(c@, self@.data)] + self@.flatten_children(
                    c@,
                    i as nat,
                ),
            decreases self.subcategories.len() - i,
        {
            let subcategory = c.clone().with_subcategory(self.subcategories[i].0.clone());
            let mut part = self.subcategories[i].1.flatten_recursive(&subcategory);
            proof {
                self.lemma_view();
                assert(flat_view(flattened@ + part@) =~= flat_view(flattened@) + flat_view(part@));
                assert(self@.children[i as int].1 == self.subcategories@[i as int].1@);
                assert((seq![(c@, self@.data)] + self@.flatten_children(c@, i as nat))
                    + flat_view(part@) =~= seq![(c@, self@.data)] + self@.flatten_children(
                    c@,
                    (i + 1) as nat,
                ));
            }
            flattened.append(&mut part);
            i += 1;
        }
        proof {
            self.lemma_view();
        }
        flattened
    }
}

/// Adding a transaction keeps the tree well formed and counts one more at
/// the root.
pub proof fn lemma_insert_wf<C: Currency>(v: SummaryView<C>, amount: C, path: Path)
    requires
        v.wf(),
    ensures
        v.insert(amount, path).wf(),
        v.insert(amount, path).data == v.data.with(amount),
    decreases path.len(),
{
    let r = v.insert(amount, path);
    if path.len() > 0 {
        let name = path[0];
        let rest = path.skip(1);
        let i = first_match(v.names(), name);
        lemma_first_match(v.names(), name);
        if 0 <= i < v.children.len() {
            lemma_insert_wf(v.children[i].1, amount, rest);
            assert(v.names()[i] == v.children[i].0);
            assert forall|a: int, b: int| 0 <= a < b < r.children.len() implies (
            #[trigger] r.children[a]).0 != (#[trigger] r.children[b]).0 by {
                assert(r.children[a].0 == v.children[a].0);
                assert(r.children[b].0 == v.children[b].0);
            }
            assert forall|a: int| 0 <= a < r.children.len() implies {
                &&& (#[trigger] r.children[a]).1.data.n <= r.data.n
                &&& r.children[a].1.wf()
            } by {
                if a != i {
                    assert(r.children[a] == v.children[a]);
                }
            }
        } else {
            lemma_insert_wf(SummaryView::<C>::empty(), amount, rest);
            assert forall|a: int, b: int| 0 <= a < b < r.children.len() implies (
            #[trigger] r.children[a]).0 != (#[trigger] r.children[b]).0 by {
                assert(r.children[a] == v.children[a]);
                assert(v.names()[a] == v.children[a].0);
                if b < v.children.len() {
                    assert(r.children[b] == v.children[b]);
                }
            }
            assert forall|a: int| 0 <= a < r.children.len() implies {
                &&& (#[trigger] r.children[a]).1.data.n <= r.data.n
                &&& r.children[a].1.wf()
            } by {
                if a < v.children.len() {
                    assert(r.children[a] == v.children[a]);
                }
            }
        }
    }
}

/// Whether `q` is an initial part of `path`, or `path` itself.
pub open spec fn is_prefix(q: Path, path: Path) -> bool
    decreases q.len(),
{
    q.len() == 0 || (path.len() > 0 && q[0] == path[0] && is_prefix(q.skip(1), path.skip(1)))
}

/// Whether `a` is an initial part of `b` and shorter than `b`.
pub open spec fn proper_prefix(a: Path, b: Path) -> bool {
    a.len() < b.len() && b.take(a.len() as int) == a
}

/// An aggregate with one more transaction, where a missing aggregate
/// counts as that of no transactions.
pub open spec fn bumped<C: Currency>(d: Option<Totals<C>>, amount: C) -> Totals<C> {
    match d {
        Some(t) => t.with(amount),
        None => Totals::<C>::zero().with(amount),
    }
}

/// A transaction changes the aggregate of the node of every prefix of its
/// category, the root and the full path included, by exactly its amount,
/// making the node where it was missing; every other node, each sibling
/// among them, keeps its aggregate or stays absent.
pub proof fn lemma_insert_touches_path<C: Currency>(
    v: SummaryView<C>,
    amount: C,
    path: Path,
    q: Path,
)
    ensures
        is_prefix(q, path) ==> v.insert(amount, path).at(q) == Some(bumped(v.at(q), amount)),
        !is_prefix(q, path) ==> v.insert(amount, path).at(q) == v.at(q),
    decreases q.len(),
{
    let r = v.insert(amount, path);
    if q.len() == 0 {
    } else if path.len() == 0 {
        assert(r.names() =~= v.names());
    } else {
        let name = path[0];
        let rest = path.skip(1);
        let i = first_match(v.names(), name);
        let j = first_match(v.names(), q[0]);
        lemma_first_match(v.names(), name);
        lemma_first_match(v.names(), q[0]);
        if 0 <= i < v.children.len() {
            assert(v.names()[i] == v.children[i].0);
            assert(r.names() =~= v.names());
            if q[0] == name {
                lemma_insert_touches_path(v.children[i].1, amount, rest, q.skip(1));
            } else if j < v.children.len() {
                assert(v.names()[j] == q[0]);
                assert(r.children[j] == v.children[j]);
            }
        } else {
            let fresh = SummaryView::<C>::empty();
            assert(r.names() =~= v.names().push(name));
            lemma_first_match_push(v.names(), name, q[0]);
            if q[0] == name {
                lemma_insert_touches_path(fresh, amount, rest, q.skip(1));
                assert(fresh.names() =~= Seq::<Seq<char>>::empty());
                assert(r.children[v.children.len() as int].1 == fresh.insert(amount, rest));
            } else if j < v.children.len() {
                assert(r.children[j] == v.children[j]);
            }
        }
    }
}

/// The test that a transaction's category is `q` or lies below it.
pub open spec fn at_or_below<C>(q: Path) -> spec_fn(TransactionView<C>) -> bool {
    |t: TransactionView<C>| is_prefix(q, t.category)
}

/// In the tree of a list of transactions every node holds the aggregate of
/// the transactions whose category is the path of the node or lies below
/// it, in the order of the list; the tree has a node for a path exactly if
/// there is such a transaction, or the path is that of the root.
pub proof fn lemma_node_is_total<C: Currency>(transactions: Seq<TransactionView<C>>, q: Path)
    ensures
        SummaryView::<C>::empty().insert_all(transactions).at(q) == if q.len() > 0
            && transactions.filter(at_or_below(q)).len() == 0 {
            None
        } else {
            Some(total_of(amounts(transactions.filter(at_or_below(q)))))
        },
    decreases transactions.len(),
{
    let start = SummaryView::<C>::empty();
    if transactions.len() == 0 {
        reveal(Seq::filter);
        assert(transactions.filter(at_or_below(q)) =~= Seq::empty());
        assert(amounts(Seq::<TransactionView<C>>::empty()) =~= Seq::empty());
        assert(start.names() =~= Seq::empty());
    } else {
        let front = transactions.drop_last();
        let last = transactions.last();
        let under = front.filter(at_or_below(q));
        lemma_node_is_total(front, q);
        lemma_insert_touches_path(start.insert_all(front), last.amount, last.category, q);
        lemma_filter_last(transactions, at_or_below(q));
        let tree = start.insert_all(front);
        let grown = tree.insert(last.amount, last.category);
        assert(start.insert_all(transactions) == grown);
        if is_prefix(q, last.category) {
            let now = under.push(last);
            assert(transactions.filter(at_or_below(q)) == now);
            assert(amounts(now).drop_last() =~= amounts(under));
            assert(amounts(now).last() == last.amount);
            assert(total_of(amounts(now)) == total_of(amounts(under)).with(last.amount));
            if under.len() == 0 {
                assert(amounts(under) =~= Seq::empty());
                assert(total_of(amounts(under)) == Totals::<C>::zero());
            }
            assert(grown.at(q) == Some(bumped(tree.at(q), last.amount)));
        } else {
            assert(transactions.filter(at_or_below(q)) == under);
            assert(grown.at(q) == tree.at(q));
        }
    }
}

/// Where amounts add up to the same whatever their order, an amount put
/// anywhere into a list adds to the total as one put at the end.
pub proof fn lemma_total_of_insert<C: Currency>(list: Seq<C>, p: int, amount: C)
    requires
        adds_in_any_order::<C>(),
        0 <= p <= list.len(),
    ensures
        total_of(list.insert(p, amount)) == total_of(list).with(amount),
    decreases list.len() - p,
{
    let grown = list.insert(p, amount);
    if p == list.len() {
        assert(grown.drop_last() =~= list);
        assert(grown.last() == amount);
    } else {
        let front = list.drop_last();
        let last = list.last();
        assert(grown.drop_last() =~= front.insert(p, amount));
        assert(grown.last() == last);
        lemma_total_of_insert(front, p, amount);
        let sum = total_of(front).sum;
        assert(sum.plus(amount).plus(last) == sum.plus(last).plus(amount));
    }
}

/// The root of a tree is the aggregate of the amounts added to it, in the
/// order in which they were added.
pub proof fn lemma_root_is_total<C: Currency>(transactions: Seq<TransactionView<C>>)
    ensures
        SummaryView::<C>::empty().insert_all(transactions).data == total_of(
            amounts(transactions),
        ),
    decreases transactions.len(),
{
    if transactions.len() > 0 {
        lemma_root_is_total(transactions.drop_last());
        assert(amounts(transactions).drop_last() =~= amounts(transactions.drop_last()));
    }
}

/// Adding the transactions of a list one at a time, each to the tree that
/// the ones before it gave, builds the tree of the whole list.
pub proof fn lemma_insert_all_step<C: Currency>(
    v: SummaryView<C>,
    transactions: Seq<TransactionView<C>>,
    t: TransactionView<C>,
)
    ensures
        v.insert_all(transactions.push(t)) == v.insert_all(transactions).insert(
            t.amount,
            t.category,
        ),
{
    assert(transactions.push(t).drop_last() =~= transactions);
}

/// Every entry of a flattened tree carries a path that begins with the
/// path of the root; the first entry is the root, and every other path is
/// longer.
proof fn lemma_flatten_paths<C: Currency>(v: SummaryView<C>, prefix: Path, idx: int)
    requires
        0 <= idx < v.flatten(prefix).len(),
    ensures
        v.flatten(prefix)[idx].0.len() >= prefix.len(),
        v.flatten(prefix)[idx].0.take(prefix.len() as int) == prefix,
        idx == 0 ==> v.flatten(prefix)[idx].0 == prefix,
        idx > 0 ==> v.flatten(prefix)[idx].0.len() > prefix.len(),
    decreases v, 1nat, 0nat,
{
    if idx == 0 {
        assert(prefix.take(prefix.len() as int) =~= prefix);
    } else {
        lemma_flatten_children_paths(v, prefix, v.children.len(), idx - 1);
    }
}

/// Every entry of the first `k` flattened subtrees carries a path that
/// begins with the path of the parent and goes on with the name of one of
/// the first `k` children.
proof fn lemma_flatten_children_paths<C: Currency>(
    v: SummaryView<C>,
    prefix: Path,
    k: nat,
    idx: int,
)
    requires
        k <= v.children.len(),
        0 <= idx < v.flatten_children(prefix, k).len(),
    ensures
        v.flatten_children(prefix, k)[idx].0.len() > prefix.len(),
        v.flatten_children(prefix, k)[idx].0.take(prefix.len() as int) == prefix,
        exists|m: int|
            0 <= m < k && v.flatten_children(prefix, k)[idx].0[prefix.len() as int] == (
            #[trigger] v.children[m]).0,
    decreases v, 0nat, k,
{
    if k > 0 {
        let front = v.flatten_children(prefix, (k - 1) as nat);
        let child = v.children[k - 1];
        let below = prefix.push(child.0);
        if idx < front.len() {
            lemma_flatten_children_paths(v, prefix, (k - 1) as nat, idx);
            let m = choose|m: int|
                0 <= m < k - 1 && front[idx].0[prefix.len() as int] == (
                #[trigger] v.children[m]).0;
            assert(0 <= m < k && v.flatten_children(prefix, k)[idx].0[prefix.len() as int]
                == v.children[m].0);
        } else {
            let e = child.1.flatten(below)[idx - front.len()];
            lemma_flatten_paths(child.1, below, idx - front.len());
            assert(e.0.take(below.len() as int)[prefix.len() as int] == child.0);
            assert(e.0.take(prefix.len() as int) =~= e.0.take(below.len() as int).take(
                prefix.len() as int,
            ));
            assert(below.take(prefix.len() as int) =~= prefix);
            assert(v.flatten_children(prefix, k)[idx] == e);
            assert(0 <= k - 1 < k && e.0[prefix.len() as int] == v.children[k - 1].0);
        }
    }
}

/// In a flattened tree a node stands before every node below it.
pub proof fn lemma_flatten_preorder<C: Currency>(v: SummaryView<C>, prefix: Path, i: int, j: int)
    requires
        v.wf(),
        0 <= i < v.flatten(prefix).len(),
        0 <= j < v.flatten(prefix).len(),
        proper_prefix(v.flatten(prefix)[i].0, v.flatten(prefix)[j].0),
    ensures
        i < j,
    decreases v, 1nat, 0nat,
{
    lemma_flatten_paths(v, prefix, i);
    lemma_flatten_paths(v, prefix, j);
    if i > 0 && j > 0 {
        lemma_flatten_children_preorder(v, prefix, v.children.len(), i - 1, j - 1);
    }
}

/// Among the first `k` flattened subtrees a node stands before every node
/// below it.
proof fn lemma_flatten_children_preorder<C: Currency>(
    v: SummaryView<C>,
    prefix: Path,
    k: nat,
    i: int,
    j: int,
)
    requires
        v.wf(),
        k <= v.children.len(),
        0 <= i < v.flatten_children(prefix, k).len(),
        0 <= j < v.flatten_children(prefix, k).len(),
        proper_prefix(v.flatten_children(prefix, k)[i].0, v.flatten_children(prefix, k)[j].0),
    ensures
        i < j,
    decreases v, 0nat, k,
{
    if k > 0 {
        let front = v.flatten_children(prefix, (k - 1) as nat);
        let child = v.children[k - 1];
        let below = prefix.push(child.0);
        let all = v.flatten_children(prefix, k);
        if i < front.len() && j < front.len() {
            lemma_flatten_children_preorder(v, prefix, (k - 1) as nat, i, j);
        } else if i >= front.len() && j >= front.len() {
            assert(all[i] == child.1.flatten(below)[i - front.len()]);
            assert(all[j] == child.1.flatten(below)[j - front.len()]);
            lemma_flatten_preorder(child.1, below, i - front.len(), j - front.len());
        } else if i >= front.len() {
            lemma_flatten_children_paths(v, prefix, k, i);
            lemma_flatten_children_paths(v, prefix, (k - 1) as nat, j);
            lemma_flatten_paths(child.1, below, i - front.len());
            let a = all[i].0;
            let b = all[j].0;
            assert(all[i] == child.1.flatten(below)[i - front.len()]);
            assert(a.take(below.len() as int)[prefix.len() as int] == child.0);
            assert(b.take(a.len() as int)[prefix.len() as int] == a[prefix.len() as int]);
            let m = choose|m: int|
                0 <= m < k - 1 && front[j].0[prefix.len() as int] == (#[trigger] v.children[m]).0;
            assert(v.children[m].0 == v.children[k - 1].0);
            assert(false);
        }
    }
}

} // verus!
