use budget_lib::{Ledger, Timestamp, Transaction};
use decimal::d128;

fn on(amount: i64, year: i32, month: u8, day: u8, category: &str) -> Transaction<i64> {
    Transaction::with_currency(amount)
        .with_date_transaction(Timestamp::midnight(year, month, day).unwrap())
        .with_category_from_str(category)
}

fn amounts(l: &Ledger<i64>) -> Vec<i64> {
    l.transactions().iter().map(|t| *t.amount()).collect()
}

#[test]
fn default_to_d128() {
    let d = d128::zero();
    let t = Transaction::default();
    assert_eq!(&d, t.amount());
}

#[test]
fn ledger_constructors() {
    let t1 = Transaction::<d128>::default();
    let mut ledger_d128 = Ledger::default();
    ledger_d128.add(t1);

    let t2 = Transaction::<i32>::default();
    let mut ledger_i32 = Ledger::default();
    ledger_i32.add(t2);
    assert_eq!(ledger_d128.len(), 1);
    assert_eq!(ledger_i32.len(), 1);
}

#[test]
fn add_keeps_the_ledger_in_date_order() {
    let mut l = Ledger::default();
    l.add(on(1, 2024, 3, 10, ""));
    l.add(on(2, 2024, 1, 5, ""));
    l.add(on(3, 2024, 2, 20, ""));
    l.add(on(4, 2023, 12, 31, ""));
    l.add(on(5, 2024, 3, 11, ""));
    assert_eq!(amounts(&l), vec![4, 2, 3, 1, 5]);
    assert_eq!(l.len(), 5);
}

#[test]
fn transactions_of_one_date_keep_their_order() {
    let mut l = Ledger::default();
    l.add(on(1, 2024, 3, 1, ""));
    l.add(on(2, 2024, 3, 1, ""));
    l.add(on(0, 2024, 2, 1, ""));
    l.add(on(3, 2024, 3, 1, ""));
    l.add(on(9, 2024, 4, 1, ""));
    l.add(on(4, 2024, 3, 1, ""));
    assert_eq!(amounts(&l), vec![0, 1, 2, 3, 4, 9]);
}

#[test]
fn from_transactions_sorts_stably() {
    let l = Ledger::from_transactions(vec![
        on(10, 2024, 5, 1, ""),
        on(20, 2024, 1, 1, ""),
        on(30, 2024, 5, 1, ""),
        on(40, 2024, 1, 1, ""),
        on(50, 2022, 1, 1, ""),
    ]);
    assert_eq!(amounts(&l), vec![50, 20, 40, 10, 30]);
    let empty: Ledger<i64> = Ledger::from_transactions(Vec::new());
    assert_eq!(empty.len(), 0);
}

#[test]
fn from_transactions_of_decimals() {
    let v = vec![Transaction::new(10), Transaction::new(20), Transaction::new(30)];
    let l = Ledger::from_transactions(v);
    assert_eq!(l.len(), 3);
    assert_eq!(l.into_vec().len(), 3);
}

#[test]
fn categories_of_the_categorised_transactions() {
    let l = Ledger::from_transactions(vec![
        on(1, 2024, 1, 3, "expenses::car"),
        on(2, 2024, 1, 1, ""),
        on(3, 2024, 1, 2, "income"),
        on(4, 2024, 1, 4, "expenses::car"),
    ]);
    assert_eq!(
        l.categories(),
        vec!["income".to_string(), "expenses::car".to_string(), "expenses::car".to_string()]
    );
}

#[test]
fn find_category_gives_the_first_match() {
    let l = Ledger::from_transactions(vec![
        on(1, 2024, 1, 1, "expenses::car"),
        on(2, 2024, 1, 2, "expenses"),
        on(3, 2024, 1, 3, "expenses"),
    ]);
    assert_eq!(l.find_category(&"expenses".to_string()), 1);
    assert_eq!(l.find_category(&"expenses::car".to_string()), 0);
    assert_eq!(l.find_category(&"none".to_string()), 3);
}
