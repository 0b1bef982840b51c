//! A single financial transaction.

use vstd::prelude::*;
use decimal::d128;
use uuid::Uuid;
use crate::category::{texts, Category};
use crate::currency::{decimal_from_i64, decimal_of, Currency};
use crate::lookup::lemma_filter_last;
use crate::text::{
    copy_optional,
    copy_texts,
    optional_text,
    same_optional,
    same_texts,
    insert_text,
    lemma_filter_keeps_order,
    lemma_with_text,
    sorted_distinct,
    strictly_ascending,
    with_text,
};
use crate::time::Timestamp;

verus! {

/// The universally unique identifier of the `uuid` crate. Verus sees nothing
/// inside a value of it; a transaction only carries it.
#[verifier::external_type_specification]
#[verifier::external_body]
pub struct ExUuid(Uuid);

/// Calls `Uuid::new_v4`, which draws a random identifier. Nothing is
/// claimed of the result.
#[verifier::external_body]
fn fresh_uuid() -> (r: Uuid) {
    Uuid::new_v4()
}

/// Where a transaction came from.
#[derive(Clone, Copy, Debug, PartialEq, Eq, Structural)]
pub enum Source {
    Manual,
    Reconciliation,
}

/// A financial transaction. A positive amount flows into the account.
#[derive(Debug)]
pub struct Transaction<C: Currency> {
    amount: C,
    description: Option<String>,
    payee: Option<String>,
    date_created: Timestamp,
    date_transaction: Option<Timestamp>,
    category: Category,
    account: Option<String>,
    tags: Vec<String>,
    id: Option<u16>,
    uuid: Uuid,
    reconciled: bool,
    source: Source,
}

/// What a transaction holds, with every text as its character sequence.
pub struct TransactionView<C> {
    pub amount: C,
    pub description: Option<Seq<char>>,
    pub payee: Option<Seq<char>>,
    pub date_created: Timestamp,
    pub date_transaction: Option<Timestamp>,
    pub category: Seq<Seq<char>>,
    pub account: Option<Seq<char>>,
    pub tags: Seq<Seq<char>>,
    pub id: Option<u16>,
    pub uuid: Uuid,
    pub reconciled: bool,
    pub source: Source,
}

impl<C> TransactionView<C> {
    /// The date by which the transaction is ordered and bucketed: the date
    /// on which it took place if that is set, else the date of its creation.
    pub open spec fn date(self) -> Timestamp {
        match self.date_transaction {
            Some(d) => d,
            None => self.date_created,
        }
    }

    /// Whether everything but the amount, the date of creation and the
    /// identifier is as in a transaction just made.
    pub open spec fn blank(self) -> bool {
        &&& self.description is None
        &&& self.payee is None
        &&& self.date_transaction is None
        &&& self.category.len() == 0
        &&& self.account is None
        &&& self.tags.len() == 0
        &&& self.id is None
        &&& !self.reconciled
        &&& self.source == Source::Manual
    }
}

impl<C: Currency> TransactionView<C> {
    /// Whether two transactions agree in amount, description, category,
    /// date of the transaction and tags.
    pub open spec fn similar(self, other: TransactionView<C>) -> bool {
        &&& self.amount.equals(other.amount)
        &&& self.description == other.description
        &&& self.category == other.category
        &&& self.date_transaction == other.date_transaction
        &&& self.tags == other.tags
    }
}

/// The list without every string that holds `text`.
pub open spec fn without_text(v: Seq<Seq<char>>, text: Seq<char>) -> Seq<Seq<char>> {
    v.filter(|s: Seq<char>| s != text)
}

impl<C: Currency> View for Transaction<C> {
    type V = TransactionView<C>;

    closed spec fn view(&self) -> TransactionView<C> {
        TransactionView {
            amount: self.amount,
            description: optional_text(self.description),
            payee: optional_text(self.payee),
            date_created: self.date_created,
            date_transaction: self.date_transaction,
            category: self.category@,
            account: optional_text(self.account),
            tags: texts(self.tags@),
            id: self.id,
            uuid: self.uuid,
            reconciled: self.reconciled,
            source: self.source,
        }
    }
}

impl<C: Currency> Default for Transaction<C> {
    /// A blank transaction of amount zero, created now, with a new
    /// identifier.
    fn default() -> (r: Transaction<C>)
        ensures
            r@.amount == C::zero_value(),
            r@.blank(),
            r@.date_created@.valid(),
    {
        Transaction::with_currency(C::zero())
    }
}

impl<C: Currency> Clone for Transaction<C> {
    fn clone(&self) -> (r: Transaction<C>)
        ensures
            r@ == self@,
    {
        Transaction {
            amount: self.amount,
            description: copy_optional(&self.description),
            payee: copy_optional(&self.payee),
            date_created: self.date_created,
            date_transaction: self.date_transaction,
            category: self.category.clone(),
            account: copy_optional(&self.account),
            tags: copy_texts(&self.tags),
            id: self.id,
            uuid: self.uuid,
            reconciled: self.reconciled,
            source: self.source,
        }
    }
}

impl Transaction<d128> {
    /// A blank transaction of the given whole amount, held as an exact
    /// decimal, created now, with a new identifier.
    pub fn new(amount: i64) -> (r: Transaction<d128>)
        ensures
            r@.amount == decimal_of(amount as int),
            r@.blank(),
            r@.date_created@.valid(),
    {
        Transaction::with_currency(decimal_from_i64(amount))
    }
}

impl<C: Currency> Transaction<C> {
    /// A blank transaction of the given amount, created now, with a new
    /// identifier.
    pub fn with_currency(amount: C) -> (r: Transaction<C>)
        ensures
            r@.amount == amount,
            r@.blank(),
            r@.date_created@.valid(),
    {
        let r = Transaction {
            amount,
            description: None,
            payee: None,
            date_created: Timestamp::now(),
            date_transaction: None,
            category: Category::new(),
            account: None,
            tags: Vec::new(),
            id: None,
            uuid: fresh_uuid(),
            reconciled: false,
            source: Source::Manual,
        };
        assert(r@.tags =~= Seq::<Seq<char>>::empty());
        r
    }

    /// The transaction with the given fields: one that was stored comes
    /// back with the identifier and the date of creation it had. The tags
    /// are put in ascending order, each one once.
    pub fn restore(
        amount: C,
        description: Option<String>,
        payee: Option<String>,
        date_created: Timestamp,
        date_transaction: Option<Timestamp>,
        category: Category,
        account: Option<String>,
        tags: Vec<String>,
        id: Option<u16>,
        uuid: Uuid,
        reconciled: bool,
        source: Source,
    ) -> (r: Transaction<C>)
        ensures
            r@ == (TransactionView {
                amount,
                description: optional_text(description),
                payee: optional_text(payee),
                date_created,
                date_transaction,
                category: category@,
                account: optional_text(account),
                tags: r@.tags,
                id,
                uuid,
                reconciled,
                source,
            }),
            strictly_ascending(r@.tags),
            forall|x: Seq<char>| r@.tags.contains(x) <==> texts(tags@).contains(x),
    {
        Transaction {
            amount,
            description,
            payee,
            date_created,
            date_transaction,
            category,
            account,
            tags: sorted_distinct(tags),
            id,
            uuid,
            reconciled,
            source,
        }
    }

    pub fn amount(&self) -> (r: &C)
        ensures
            *r == self@.amount,
    {
        &self.amount
    }

    pub fn set_amount(&mut self, amount: C)
        ensures
            final(self)@ == (TransactionView { amount, ..old(self)@ }),
    {
        self.amount = amount;
    }

    pub fn with_amount(self, amount: C) -> (r: Transaction<C>)
        ensures
            r@ == (TransactionView { amount, ..self@ }),
    {
        let mut t = self;
        t.set_amount(amount);
        t
    }

    /// The moment at which the record was made.
    pub fn created(&self) -> (r: Timestamp)
        ensures
            r == self@.date_created,
    {
        self.date_created
    }

    /// The moment at which the transaction took place, where that is known.
    pub fn date_transaction(&self) -> (r: Option<Timestamp>)
        ensures
            r == self@.date_transaction,
    {
        self.date_transaction
    }

    pub fn set_date_transaction(&mut self, date: Option<Timestamp>)
        ensures
            final(self)@ == (TransactionView { date_transaction: date, ..old(self)@ }),
    {
        self.date_transaction = date;
    }

    pub fn with_date_transaction(self, date: Timestamp) -> (r: Transaction<C>)
        ensures
            r@ == (TransactionView { date_transaction: Some(date), ..self@ }),
    {
        let mut t = self;
        t.set_date_transaction(Some(date));
        t
    }

    /// The date by which the transaction is ordered and bucketed.
    pub fn date(&self) -> (r: Timestamp)
        ensures
            r == self@.date(),
    {
        match self.date_transaction {
            Some(d) => d,
            None => self.date_created,
        }
    }

    pub fn description(&self) -> (r: &Option<String>)
        ensures
            optional_text(*r) == self@.description,
    {
        &self.description
    }

    pub fn set_description(&mut self, description: Option<String>)
        ensures
            final(self)@ == (TransactionView {
                description: optional_text(description),
                ..old(self)@
            }),
    {
        self.description = description;
    }

    pub fn with_description(self, description: Option<String>) -> (r: Transaction<C>)
        ensures
            r@ == (TransactionView { description: optional_text(description), ..self@ }),
    {
        let mut t = self;
        t.set_description(description);
        t
    }

    pub fn payee(&self) -> (r: &Option<String>)
        ensures
            optional_text(*r) == self@.payee,
    {
        &self.payee
    }

    pub fn set_payee(&mut self, payee: Option<String>)
        ensures
            final(self)@ == (TransactionView { payee: optional_text(payee), ..old(self)@ }),
    {
        self.payee = payee;
    }

    pub fn with_payee(self, payee: Option<String>) -> (r: Transaction<C>)
        ensures
            r@ == (TransactionView { payee: optional_text(payee), ..self@ }),
    {
        let mut t = self;
        t.set_payee(payee);
        t
    }

    pub fn category(&self) -> (r: &Category)
        ensures
            r@ == self@.category,
    {
        &self.category
    }

    /// Replaces the category; nothing stands for the empty path.
    pub fn set_category(&mut self, category: Option<Category>)
        ensures
            final(self)@ == (TransactionView {
                category: match category {
                    Some(c) => c@,
                    None => Seq::empty(),
                },
                ..old(self)@
            }),
    {
        self.category =
        match category {
            Some(c) => c,
            None => Category::new(),
        };
    }

    /// Replaces the category by the path that `category` writes; the empty
    /// text gives the empty path.
    pub fn set_category_from_str(&mut self, category: &str)
        ensures
            final(self)@ == (TransactionView {
                category: if category@.len() == 0 {
                    Seq::empty()
                } else {
                    crate::category::split(category@)
                },
                ..old(self)@
            }),
    {
        self.category =
        match Category::parse(category) {
            Ok(c) => c,
            Err(_) => Category::new(),
        };
    }

    pub fn with_category(self, category: Option<Category>) -> (r: Transaction<C>)
        ensures
            r@ == (TransactionView {
                category: match category {
                    Some(c) => c@,
                    None => Seq::empty(),
                },
                ..self@
            }),
    {
        let mut t = self;
        t.set_category(category);
        t
    }

    pub fn with_category_from_str(self, category: &str) -> (r: Transaction<C>)
        ensures
            r@ == (TransactionView {
                category: if category@.len() == 0 {
                    Seq::empty()
                } else {
                    crate::category::split(category@)
                },
                ..self@
            }),
    {
        let mut t = self;
        t.set_category_from_str(category);
        t
    }

    pub fn account(&self) -> (r: &Option<String>)
        ensures
            optional_text(*r) == self@.account,
    {
        &self.account
    }

    /// Returns the account and changes nothing.
    pub fn set_account(&self) -> (r: &Option<String>)
        ensures
            optional_text(*r) == self@.account,
    {
        &self.account
    }

    /// Adds the tag in its place among the tags, unless the transaction has
    /// it already: tags that stood in ascending order still do.
    pub fn tag(&mut self, tag: String)
        ensures
            final(self)@ == (TransactionView {
                tags: with_text(old(self)@.tags, tag@),
                ..old(self)@
            }),
            forall|x: Seq<char>|
                final(self)@.tags.contains(x) <==> old(self)@.tags.contains(x) || x == tag@,
            strictly_ascending(old(self)@.tags) ==> strictly_ascending(final(self)@.tags),
    {
        proof {
            lemma_with_text(texts(self.tags@), tag@);
        }
        insert_text(&mut self.tags, tag);
    }

    pub fn with_tag(self, tag: String) -> (r: Transaction<C>)
        ensures
            r@ == (TransactionView { tags: with_text(self@.tags, tag@), ..self@ }),
            forall|x: Seq<char>| r@.tags.contains(x) <==> self@.tags.contains(x) || x == tag@,
            strictly_ascending(self@.tags) ==> strictly_ascending(r@.tags),
    {
        let mut t = self;
        t.tag(tag);
        t
    }

    /// Removes every occurrence of the tag; the others keep their order.
    pub fn untag(&mut self, tag: &String)
        ensures
            final(self)@ == (TransactionView {
                tags: without_text(old(self)@.tags, tag@),
                ..old(self)@
            }),
            strictly_ascending(old(self)@.tags) ==> strictly_ascending(final(self)@.tags),
    {
        proof {
            if strictly_ascending(self@.tags) {
                lemma_filter_keeps_order(self@.tags, |s: Seq<char>| s != tag@);
            }
        }
        let mut kept: Vec<String> = Vec::new();
        let mut i: usize = 0;
        let ghost before = texts(self.tags@);
        assert(before.take(0) =~= Seq::<Seq<char>>::empty());
        while i < self.tags.len()
            invariant
                i <= self.tags.len(),
                before == texts(self.tags@),
                texts(kept@) == without_text(before.take(i as int), tag@),
            decreases self.tags.len() - i,
        {
            proof {
                let pred = |s: Seq<char>| s != tag@;
                assert(before.take(i + 1).drop_last() =~= before.take(i as int));
                assert(before.take(i + 1).last() == before[i as int]);
                lemma_filter_last(before.take(i + 1), pred);
            }
            if self.tags[i] != *tag {
                let s = self.tags[i].clone();
                assert(texts(kept@.push(s)) =~= texts(kept@).push(s@));
                kept.push(s);
            }
            i += 1;
        }
        assert(before.take(self.tags.len() as int) =~= before);
        self.tags = kept;
    }

    pub fn without_tag(self, tag: &String) -> (r: Transaction<C>)
        ensures
            r@ == (TransactionView { tags: without_text(self@.tags, tag@), ..self@ }),
            strictly_ascending(self@.tags) ==> strictly_ascending(r@.tags),
    {
        let mut t = self;
        t.untag(tag);
        t
    }

    /// Sets the tags to exactly those given, in ascending order, each one
    /// once.
    pub fn set_tags(&mut self, tags: Vec<String>)
        ensures
            strictly_ascending(final(self)@.tags),
            forall|x: Seq<char>| final(self)@.tags.contains(x) <==> texts(tags@).contains(x),
            final(self)@ == (TransactionView { tags: final(self)@.tags, ..old(self)@ }),
    {
        self.tags = sorted_distinct(tags);
    }

    pub fn tags(&self) -> (r: &Vec<String>)
        ensures
            texts(r@) == self@.tags,
    {
        &self.tags
    }

    pub fn id(&self) -> (r: Option<u16>)
        ensures
            r == self@.id,
    {
        self.id
    }

    pub fn set_id(&mut self, id: Option<u16>)
        ensures
            final(self)@ == (TransactionView { id, ..old(self)@ }),
    {
        self.id = id;
    }

    pub fn with_id(self, id: Option<u16>) -> (r: Transaction<C>)
        ensures
            r@ == (TransactionView { id, ..self@ }),
    {
        let mut t = self;
        t.set_id(id);
        t
    }

    /// The identifier, which no operation changes.
    pub fn uuid(&self) -> (r: &Uuid)
        ensures
            *r == self@.uuid,
    {
        &self.uuid
    }

    pub fn reconciled(&self) -> (r: bool)
        ensures
            r == self@.reconciled,
    {
        self.reconciled
    }

    pub fn set_reconciled(&mut self, b: bool)
        ensures
            final(self)@ == (TransactionView { reconciled: b, ..old(self)@ }),
    {
        self.reconciled = b;
    }

    pub fn source(&self) -> (r: &Source)
        ensures
            *r == self@.source,
    {
        &self.source
    }

    pub fn set_source(&mut self, s: Source)
        ensures
            final(self)@ == (TransactionView { source: s, ..old(self)@ }),
    {
        self.source = s;
    }

    pub fn with_source(self, s: Source) -> (r: Transaction<C>)
        ensures
            r@ == (TransactionView { source: s, ..self@ }),
    {
        let mut t = self;
        t.set_source(s);
        t
    }

    /// Whether the two transactions agree in amount, description, category,
    /// date of the transaction and tags. Identifiers, the date of creation,
    /// the source and the reconciled flag are not looked at.
    pub fn is_similar(&self, other: &Transaction<C>) -> (r: bool)
        ensures
            r == self@.similar(other@),
    {
        self.amount.same(&other.amount) && same_optional(&self.description, &other.description)
            && self.category.same_path(&other.category) && same_date(
            &self.date_transaction,
            &other.date_transaction,
        ) && same_texts(&self.tags, &other.tags)
    }
}

/// Whether two optional dates are the same date, or both nothing.
fn same_date(a: &Option<Timestamp>, b: &Option<Timestamp>) -> (r: bool)
    ensures
        r == (*a == *b),
{
    match (a, b) {
        (Some(x), Some(y)) => *x == *y,
        (None, None) => true,
        _ => false,
    }
}

} // verus!
