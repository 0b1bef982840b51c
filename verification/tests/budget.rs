use budget_lib::{Budget, Cache, CalendarMonth, Category, Ledger, Timestamp, Transaction};
use decimal::d128;

const MARCH: CalendarMonth = CalendarMonth { year: 2024, month: 3 };
const APRIL: CalendarMonth = CalendarMonth { year: 2024, month: 4 };

fn on(amount: i64, month: u8, day: u8, category: &str) -> Transaction<i64> {
    Transaction::with_currency(amount)
        .with_date_transaction(Timestamp::midnight(2024, month, day).unwrap())
        .with_category_from_str(category)
}

fn household() -> Vec<Transaction<i64>> {
    vec![
        on(-10, 3, 4, "expenses"),
        on(-20, 3, 3, "expenses::car"),
        on(-15, 3, 2, "expenses::car::fuel"),
        on(50, 3, 1, "income"),
    ]
}

fn flat(b: &Budget<i64>, month: CalendarMonth) -> Vec<(Option<String>, u64, i64)> {
    b.flatten_summary(month).into_iter().map(|(c, d)| (c.to_text(), d.n(), d.sum())).collect()
}

fn ledger_categories(b: &Budget<i64>) -> Vec<Option<String>> {
    b.ledger().transactions().iter().map(|t| t.category().to_text()).collect()
}

#[test]
fn empty_budget() {
    let b: Budget<i64> = Budget::default();
    assert_eq!(b.ledger().len(), 0);
    assert!(b.categories().is_empty());
    assert!(b.cache().months().is_empty());
    assert!(b.cache().allocations().is_empty());
    assert_eq!(flat(&b, MARCH), vec![(None, 0, 0)]);
    assert_eq!(b.uncategorized(MARCH).n(), 0);
    assert_eq!(b.allocation(MARCH, "A"), 0);
}

#[test]
fn new_takes_a_ledger_and_its_cache() {
    let b: Budget<i64> = Budget::new(Ledger::default(), Cache::default());
    assert_eq!(b.ledger().len(), 0);
    assert!(b.cache().months().is_empty());
}

#[test]
fn add_updates_ledger_and_month_summary() {
    let mut b = Budget::default();
    for t in household() {
        b.add(t);
    }
    assert_eq!(b.ledger().len(), 4);
    let in_ledger: Vec<i64> = b.ledger().transactions().iter().map(|t| *t.amount()).collect();
    assert_eq!(in_ledger, vec![50, -15, -20, -10]);
    assert_eq!(
        flat(&b, MARCH),
        vec![
            (None, 4, 5),
            (Some("expenses".to_string()), 3, -45),
            (Some("expenses::car".to_string()), 2, -35),
            (Some("expenses::car::fuel".to_string()), 1, -15),
            (Some("income".to_string()), 1, 50),
        ]
    );
    assert_eq!(flat(&b, APRIL), vec![(None, 0, 0)]);
    assert_eq!(b.cache().months(), vec![MARCH]);
}

#[test]
fn root_of_a_month_is_the_total_of_the_month() {
    let mut b = Budget::default();
    b.add(on(5, 3, 1, "a"));
    b.add(on(7, 4, 1, "a"));
    b.add(on(11, 3, 9, ""));
    b.add(on(13, 4, 2, "b::c"));
    b.add(on(17, 3, 30, "b"));
    b.add(on(19, 4, 3, ""));
    let march = b.cache().summary(MARCH).unwrap();
    let april = b.cache().summary(APRIL).unwrap();
    assert_eq!((march.summary().data().n(), march.summary().data().sum()), (3, 33));
    assert_eq!((april.summary().data().n(), april.summary().data().sum()), (3, 39));
    assert_eq!(march.month(), MARCH);
    assert_eq!((b.uncategorized(MARCH).n(), b.uncategorized(MARCH).sum()), (1, 11));
    assert_eq!((b.uncategorized(APRIL).n(), b.uncategorized(APRIL).sum()), (1, 19));
    assert_eq!((march.uncategorized().n(), march.uncategorized().sum()), (1, 11));
    assert_eq!(b.cache().months(), vec![MARCH, APRIL]);
    assert!(b.cache().summary(CalendarMonth { year: 2024, month: 5 }).is_none());
}

#[test]
fn uncategorized_transactions_stay_out_of_the_category_nodes() {
    let mut b = Budget::default();
    b.add(on(11, 3, 9, ""));
    b.add(on(5, 3, 1, "a"));
    assert_eq!(flat(&b, MARCH), vec![(None, 2, 16), (Some("a".to_string()), 1, 5)]);
    assert_eq!((b.uncategorized(MARCH).n(), b.uncategorized(MARCH).sum()), (1, 11));
}

#[test]
fn replay_of_the_ledger_rebuilds_the_cache() {
    let mut live = Budget::default();
    for t in household() {
        live.add(t);
    }
    let replayed = Budget::from_transactions(household());
    assert_eq!(flat(&live, MARCH), flat(&replayed, MARCH));
    assert_eq!(live.ledger().len(), replayed.ledger().len());

    let ordered: Vec<Transaction<i64>> = live.ledger().transactions().clone();
    let all_at_once = Budget::from_transactions(ordered.clone());
    let mut one_at_a_time = Budget::default();
    for t in ordered {
        one_at_a_time.add(t);
    }
    assert_eq!(flat(&all_at_once, MARCH), flat(&one_at_a_time, MARCH));
    assert_eq!(all_at_once.cache().months(), one_at_a_time.cache().months());
}

#[test]
fn add_category_reports_a_duplicate() {
    let mut b: Budget<i64> = Budget::default();
    assert_eq!(b.add_category("rent"), Ok("rent".to_string()));
    assert_eq!(b.categories().len(), 1);
    assert_eq!(b.add_category("rent"), Err("rent".to_string()));
    assert_eq!(b.categories().len(), 1);
    assert_eq!(b.add_category("food"), Ok("food".to_string()));
    assert_eq!(b.categories(), &vec!["rent".to_string(), "food".to_string()]);
}

#[test]
fn transfers_move_allocations_only() {
    let mut b = Budget::default();
    for t in household() {
        b.add(t);
    }
    let before = flat(&b, MARCH);
    let first = Timestamp::midnight(2024, 3, 1).unwrap();
    let second = Timestamp::midnight(2024, 3, 15).unwrap();
    assert!(b.transfer(30, "A", "B", first).is_ok());
    assert!(b.transfer(10, "A", "B", second).is_ok());
    assert_eq!(b.allocation(MARCH, "A"), -40);
    assert_eq!(b.allocation(MARCH, "B"), 40);
    assert_eq!(b.allocation(APRIL, "A"), 0);
    assert_eq!(b.allocation(MARCH, "C"), 0);
    assert_eq!(b.categories(), &vec!["A".to_string(), "B".to_string()]);
    assert_eq!(b.cache().allocation(MARCH, 0), -40);
    assert_eq!(b.cache().allocation(MARCH, 1), 40);
    assert_eq!(b.cache().allocations().len(), 2);
    assert_eq!(flat(&b, MARCH), before);
    assert_eq!(b.ledger().len(), 4);
}

#[test]
fn transfers_move_decimal_allocations() {
    let mut b: Budget<d128> = Budget::default();
    let first = Timestamp::midnight(2024, 3, 1).unwrap();
    let second = Timestamp::midnight(2024, 3, 15).unwrap();
    assert!(b.transfer(d128::from(30), "A", "B", first).is_ok());
    assert!(b.transfer(d128::from(10), "A", "B", second).is_ok());
    assert_eq!(b.allocation(MARCH, "A"), d128::from(-40));
    assert_eq!(b.allocation(MARCH, "B"), d128::from(40));
    assert_eq!(b.ledger().len(), 0);
    assert!(b.cache().months().is_empty());
}

#[test]
fn transfer_within_one_category_and_across_months() {
    let mut b: Budget<i64> = Budget::default();
    let march = Timestamp::midnight(2024, 3, 1).unwrap();
    let april = Timestamp::midnight(2024, 4, 1).unwrap();
    assert!(b.transfer(5, "A", "A", march).is_ok());
    assert_eq!(b.allocation(MARCH, "A"), 0);
    assert_eq!(b.categories().len(), 1);
    assert!(b.transfer(7, "A", "B", april).is_ok());
    assert_eq!(b.allocation(APRIL, "A"), -7);
    assert_eq!(b.allocation(APRIL, "B"), 7);
    assert_eq!(b.allocation(MARCH, "B"), 0);
}

#[test]
fn rename_leaves_the_summaries_stale() {
    let mut b = Budget::default();
    for t in household() {
        b.add(t);
    }
    assert_eq!(b.add_category("expenses"), Ok("expenses".to_string()));
    assert_eq!(b.add_category("income"), Ok("income".to_string()));
    let before = flat(&b, MARCH);
    b.rename_category("expenses", "costs");
    assert_eq!(b.categories(), &vec!["costs".to_string(), "income".to_string()]);
    assert_eq!(
        ledger_categories(&b),
        vec![
            Some("income".to_string()),
            Some("expenses::car::fuel".to_string()),
            Some("expenses::car".to_string()),
            Some("costs".to_string()),
        ]
    );
    assert_eq!(flat(&b, MARCH), before);
    assert_eq!(before[1], (Some("expenses".to_string()), 3, -45));
    assert_eq!(b.ledger().len(), 4);
}

#[test]
fn rename_touches_the_first_match_only() {
    let mut b = Budget::default();
    b.add(on(1, 3, 1, "x"));
    b.add(on(2, 3, 2, "x"));
    b.rename_category("x", "y::z");
    assert_eq!(
        ledger_categories(&b),
        vec![Some("y::z".to_string()), Some("x".to_string())]
    );
    b.rename_category("missing", "w");
    assert_eq!(
        ledger_categories(&b),
        vec![Some("y::z".to_string()), Some("x".to_string())]
    );
    b.rename_category("x", "");
    assert_eq!(ledger_categories(&b), vec![Some("y::z".to_string()), None]);
    assert!(b.categories().is_empty());
}

#[test]
fn aggregate_of_a_month_and_category() {
    let mut b = Budget::default();
    for t in household() {
        b.add(t);
    }
    let look = |b: &Budget<i64>, month: CalendarMonth, path: &str| {
        let c = if path.is_empty() { Category::new() } else { Category::parse(path).unwrap() };
        let d = b.aggregate(month, &c);
        (d.n(), d.sum())
    };
    assert_eq!(look(&b, MARCH, ""), (4, 5));
    assert_eq!(look(&b, MARCH, "expenses"), (3, -45));
    assert_eq!(look(&b, MARCH, "expenses::car"), (2, -35));
    assert_eq!(look(&b, MARCH, "expenses::car::fuel"), (1, -15));
    assert_eq!(look(&b, MARCH, "income"), (1, 50));
    assert_eq!(look(&b, MARCH, "rent"), (0, 0));
    assert_eq!(look(&b, APRIL, ""), (0, 0));
    assert_eq!(look(&b, APRIL, "expenses"), (0, 0));
}

#[test]
fn cache_counts_are_checked_against_a_bound() {
    let mut c: Cache<i64> = Cache::default();
    assert!(c.counts_within(0));
    c.record(MARCH, 5, &Category::parse("a").unwrap());
    c.record(MARCH, 6, &Category::new());
    c.record(APRIL, 7, &Category::new());
    assert!(!c.counts_within(0));
    assert!(!c.counts_within(1));
    assert!(c.counts_within(2));
    assert_eq!(c.months(), vec![MARCH, APRIL]);
    assert_eq!(c.summary(MARCH).unwrap().summary().data().sum(), 11);
    assert_eq!(c.summary(MARCH).unwrap().uncategorized().sum(), 6);
}

#[test]
fn restore_rebuilds_a_stored_budget() {
    let mut b = Budget::default();
    for t in household() {
        b.add(t);
    }
    assert!(b.transfer(30, "A", "B", Timestamp::midnight(2024, 3, 1).unwrap()).is_ok());
    let stored: Vec<Transaction<i64>> = b.ledger().transactions().clone();
    let again = Budget::restore(stored, b.categories().clone(), b.cache().allocations().clone());
    assert_eq!(again.ledger().len(), 4);
    assert_eq!(again.categories(), b.categories());
    assert_eq!(again.allocation(MARCH, "A"), -30);
    assert_eq!(again.allocation(MARCH, "B"), 30);
    let uuids = |x: &Budget<i64>| -> Vec<String> {
        x.ledger().transactions().iter().map(|t| t.uuid().to_string()).collect()
    };
    assert_eq!(uuids(&again), uuids(&b));
    let total = |x: &Budget<i64>| x.aggregate(MARCH, &Category::new()).sum();
    assert_eq!(total(&again), total(&b));
}

#[test]
fn roots_agree_with_the_ledger_whatever_the_order_of_adding() {
    let mut b = Budget::default();
    b.add(on(7, 4, 20, "a"));
    b.add(on(5, 3, 9, "a::b"));
    b.add(on(-2, 4, 1, ""));
    b.add(on(11, 3, 1, ""));
    b.add(on(13, 3, 30, "c"));
    b.add(on(1, 4, 2, "a"));
    for month in [MARCH, APRIL] {
        let in_month: Vec<i64> = b
            .ledger()
            .transactions()
            .iter()
            .filter(|t| t.date().calendar_month() == month)
            .map(|t| *t.amount())
            .collect();
        let root = b.aggregate(month, &Category::new());
        assert_eq!(root.sum(), in_month.iter().sum::<i64>());
        assert_eq!(root.n(), in_month.len() as u64);
    }
    assert_eq!(b.aggregate(MARCH, &Category::new()).sum(), 29);
    assert_eq!(b.aggregate(APRIL, &Category::new()).sum(), 6);
}
