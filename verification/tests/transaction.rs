use budget_lib::{Category, Currency, Source, Timestamp, Transaction};
use decimal::d128;

fn strings(v: &[&str]) -> Vec<String> {
    v.iter().map(|s| s.to_string()).collect()
}

#[test]
fn transaction_constructors() {
    Transaction::<d128>::default();
    Transaction::<i64>::default();
}

#[test]
fn new_holds_the_amount_as_a_decimal() {
    let t = Transaction::new(100);
    assert_eq!(t.amount(), &d128::from(100));
    let u = Transaction::new(-15);
    assert_eq!(u.amount(), &d128::from(-15));
    assert!(u.amount() != &d128::from(15));
}

#[test]
fn a_new_transaction_is_blank() {
    let t = Transaction::with_currency(7i32);
    assert_eq!(*t.amount(), 7);
    assert!(t.description().is_none());
    assert!(t.payee().is_none());
    assert!(t.date_transaction().is_none());
    assert!(t.category().is_empty());
    assert!(t.account().is_none());
    assert!(t.set_account().is_none());
    assert!(t.tags().is_empty());
    assert!(t.id().is_none());
    assert!(!t.reconciled());
    assert_eq!(*t.source(), Source::Manual);
    assert_eq!(t.date(), t.created());
}

#[test]
fn default_amount_is_zero() {
    assert_eq!(*Transaction::<i64>::default().amount(), 0);
    assert_eq!(*Transaction::<u8>::default().amount(), 0);
    assert_eq!(Transaction::<d128>::default().amount(), &d128::zero());
}

#[test]
fn every_transaction_has_its_own_uuid() {
    let a = Transaction::with_currency(1i64);
    let b = Transaction::with_currency(1i64);
    assert_ne!(a.uuid(), b.uuid());
    let c = a.clone();
    assert_eq!(a.uuid(), c.uuid());
}

#[test]
fn setters_change_one_field_and_keep_the_uuid() {
    let mut t = Transaction::with_currency(1i64);
    let uuid = *t.uuid();
    let created = t.created();
    t.set_amount(5);
    t.set_description(Some("lunch".to_string()));
    t.set_payee(Some("cafe".to_string()));
    t.set_id(Some(9));
    t.set_reconciled(true);
    t.set_source(Source::Reconciliation);
    let when = Timestamp::midnight(2024, 3, 1).unwrap();
    t.set_date_transaction(Some(when));
    assert_eq!(*t.amount(), 5);
    assert_eq!(t.description(), &Some("lunch".to_string()));
    assert_eq!(t.payee(), &Some("cafe".to_string()));
    assert_eq!(t.id(), Some(9));
    assert!(t.reconciled());
    assert_eq!(*t.source(), Source::Reconciliation);
    assert_eq!(t.date_transaction(), Some(when));
    assert_eq!(t.date(), when);
    assert_eq!(t.created(), created);
    assert_eq!(*t.uuid(), uuid);
    t.set_date_transaction(None);
    assert_eq!(t.date(), created);
}

#[test]
fn builders_set_what_they_name() {
    let when = Timestamp::midnight(2020, 2, 29).unwrap();
    let t = Transaction::with_currency(0i64)
        .with_amount(20)
        .with_description(Some("today I found $20".to_string()))
        .with_payee(None)
        .with_date_transaction(when)
        .with_id(Some(3))
        .with_source(Source::Reconciliation)
        .with_tag("luck".to_string());
    assert_eq!(*t.amount(), 20);
    assert!(t.description().is_some());
    assert!(t.payee().is_none());
    assert_eq!(t.date(), when);
    assert_eq!(t.id(), Some(3));
    assert_eq!(*t.source(), Source::Reconciliation);
    assert_eq!(t.tags(), &strings(&["luck"]));
}

#[test]
fn category_setters() {
    let mut t = Transaction::with_currency(1i64);
    t.set_category_from_str("expenses::car");
    assert_eq!(t.category(), &Category::parse("expenses::car").unwrap());
    t.set_category_from_str("");
    assert!(t.category().is_empty());
    t.set_category(Some(Category::parse("income").unwrap()));
    assert_eq!(t.category().to_text(), Some("income".to_string()));
    t.set_category(None);
    assert!(t.category().is_empty());
    let u = Transaction::with_currency(1i64).with_category_from_str("a::b");
    assert_eq!(u.category().depth(), 2);
    let v = u.with_category(None);
    assert!(v.category().is_empty());
    let w = v.with_category(Some(Category::parse("x").unwrap()));
    assert_eq!(w.category().depth(), 1);
}

#[test]
fn tag_adds_once() {
    let mut t = Transaction::with_currency(1i64);
    t.tag("b".to_string());
    t.tag("a".to_string());
    t.tag("b".to_string());
    assert_eq!(t.tags(), &strings(&["a", "b"]));
}

#[test]
fn tag_keeps_the_tags_in_ascending_order() {
    let mut t = Transaction::with_currency(1i64);
    for tag in ["pear", "apple", "fig", "apple", "Apple", "app", "zoo", "", "pear"] {
        t.tag(tag.to_string());
    }
    assert_eq!(t.tags(), &strings(&["", "Apple", "app", "apple", "fig", "pear", "zoo"]));
    let u = t.with_tag("banana".to_string()).with_tag("fig".to_string());
    assert_eq!(
        u.tags(),
        &strings(&["", "Apple", "app", "apple", "banana", "fig", "pear", "zoo"])
    );
    let v = u.without_tag(&"app".to_string());
    assert_eq!(v.tags(), &strings(&["", "Apple", "apple", "banana", "fig", "pear", "zoo"]));
}

#[test]
fn untag_removes_every_occurrence() {
    let mut t = Transaction::with_currency(1i64);
    t.tag("a".to_string());
    t.tag("b".to_string());
    t.tag("c".to_string());
    t.untag(&"b".to_string());
    assert_eq!(t.tags(), &strings(&["a", "c"]));
    t.untag(&"zzz".to_string());
    assert_eq!(t.tags(), &strings(&["a", "c"]));
    let u = t.without_tag(&"a".to_string());
    assert_eq!(u.tags(), &strings(&["c"]));
}

#[test]
fn set_tags_sorts_and_removes_duplicates() {
    let mut t = Transaction::with_currency(1i64);
    t.tag("old".to_string());
    t.set_tags(strings(&["pear", "apple", "fig", "apple", "pear", "Apple", "app"]));
    assert_eq!(t.tags(), &strings(&["Apple", "app", "apple", "fig", "pear"]));
    t.set_tags(Vec::new());
    assert!(t.tags().is_empty());
}

#[test]
fn similar_transactions() {
    let when = Timestamp::midnight(2024, 3, 1).unwrap();
    let a = Transaction::with_currency(10i64)
        .with_description(Some("x".to_string()))
        .with_category_from_str("a::b")
        .with_date_transaction(when)
        .with_tag("t".to_string());
    let b = a.clone().with_id(Some(4)).with_source(Source::Reconciliation).with_payee(
        Some("p".to_string()),
    );
    assert!(a.is_similar(&b));
    assert!(a.is_similar(&a));
    assert!(!a.is_similar(&a.clone().with_amount(11)));
    assert!(!a.is_similar(&a.clone().with_description(None)));
    assert!(!a.is_similar(&a.clone().with_category_from_str("a")));
    assert!(!a.is_similar(&a.clone().with_tag("u".to_string())));
    let later = Timestamp::midnight(2024, 3, 2).unwrap();
    assert!(!a.is_similar(&a.clone().with_date_transaction(later)));
}

#[test]
fn similar_decimal_transactions_compare_by_number() {
    let a = Transaction::new(10);
    let b = Transaction::new(10);
    let c = Transaction::new(11);
    assert!(a.is_similar(&b));
    assert!(!a.is_similar(&c));
}

#[test]
fn integers_accumulate_modulo_their_width() {
    let mut x: i8 = 127;
    x.accumulate(1);
    assert_eq!(x, -128);
    let mut y: u8 = 0;
    y.deduct(1);
    assert_eq!(y, 255);
    let mut z: i64 = -10;
    z.accumulate(-20);
    assert_eq!(z, -30);
    z.deduct(-5);
    assert_eq!(z, -25);
    assert_eq!(6i32.product(7), 42);
    assert_eq!(200u8.product(2), 144);
    assert!(5u16.same(&5));
    assert!(!5u16.same(&6));
    assert_eq!(<i128 as Currency>::zero(), 0);
    assert_eq!(<u64 as Currency>::zero(), 0);
}

#[test]
fn decimals_accumulate_as_decimals() {
    let mut x = <d128 as Currency>::zero();
    assert_eq!(x, d128::zero());
    x.accumulate(d128::from(30));
    assert_eq!(x, d128::from(30));
    x.deduct(d128::from(40));
    assert_eq!(x, d128::from(-10));
    assert_eq!(d128::from(6).product(d128::from(7)), d128::from(42));
    assert!(d128::from(3).same(&d128::from(3)));
    assert!(!d128::from(3).same(&d128::from(4)));
}

#[test]
fn restore_gives_the_stored_transaction_back() {
    let made = Transaction::with_currency(12i64)
        .with_description(Some("d".to_string()))
        .with_category_from_str("a::b")
        .with_tag("t".to_string());
    let again = Transaction::restore(
        *made.amount(),
        made.description().clone(),
        made.payee().clone(),
        made.created(),
        made.date_transaction(),
        made.category().clone(),
        made.account().clone(),
        made.tags().clone(),
        made.id(),
        *made.uuid(),
        made.reconciled(),
        *made.source(),
    );
    assert_eq!(again.uuid(), made.uuid());
    assert_eq!(again.created(), made.created());
    assert!(again.is_similar(&made));
    assert_eq!(again.category(), made.category());
}

#[test]
fn restore_puts_the_tags_in_order() {
    let made = Transaction::with_currency(1i64);
    let again = Transaction::restore(
        *made.amount(),
        None,
        None,
        made.created(),
        None,
        made.category().clone(),
        None,
        strings(&["pear", "apple", "pear", "fig"]),
        None,
        *made.uuid(),
        false,
        *made.source(),
    );
    assert_eq!(again.tags(), &strings(&["apple", "fig", "pear"]));
}
