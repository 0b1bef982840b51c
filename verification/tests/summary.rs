use budget_lib::{Category, Summary, SummaryData, Transaction};
use decimal::d128;

fn tx(amount: i64, category: &str) -> Transaction<i64> {
    Transaction::with_currency(amount).with_category_from_str(category)
}

fn at(s: &Summary<i64>, path: &str) -> Option<(u64, i64)> {
    let c = if path.is_empty() { Category::new() } else { Category::parse(path).unwrap() };
    s.lookup(&c).map(|d| (d.n(), d.sum()))
}

fn household() -> Vec<Transaction<i64>> {
    vec![
        tx(-10, "expenses"),
        tx(-20, "expenses::car"),
        tx(-15, "expenses::car::fuel"),
        tx(50, "income"),
    ]
}

fn flat(s: Summary<i64>) -> Vec<(Option<String>, u64, i64)> {
    s.flatten().into_iter().map(|(c, d)| (c.to_text(), d.n(), d.sum())).collect()
}

#[test]
fn empty_summary() {
    let s: Summary<i64> = Summary::default();
    assert_eq!(at(&s, ""), Some((0, 0)));
    assert_eq!(at(&s, "expenses"), None);
    assert_eq!(flat(s), vec![(None, 0, 0)]);
    let d: SummaryData<i64> = SummaryData::default();
    assert_eq!((d.n(), d.sum()), (0, 0));
}

#[test]
fn summary_data_counts_and_sums() {
    let mut d: SummaryData<i64> = SummaryData::default();
    d.add(&tx(-10, "a"));
    d.add(&tx(4, ""));
    d.accumulate(1);
    assert_eq!((d.n(), d.sum()), (3, -5));
}

#[test]
fn nested_categories_aggregate_along_the_paths() {
    let s = Summary::from_transactions(&household());
    assert_eq!(at(&s, ""), Some((4, 5)));
    assert_eq!(at(&s, "expenses"), Some((3, -45)));
    assert_eq!(at(&s, "expenses::car"), Some((2, -35)));
    assert_eq!(at(&s, "expenses::car::fuel"), Some((1, -15)));
    assert_eq!(at(&s, "income"), Some((1, 50)));
    assert_eq!(at(&s, "income::car"), None);
    assert_eq!(at(&s, "car"), None);
    assert_eq!(s.data().sum(), 5);
    assert_eq!(s.data().n(), 4);
}

#[test]
fn nested_categories_aggregate_in_decimals() {
    let transactions = vec![
        Transaction::new(-10).with_category_from_str("expenses"),
        Transaction::new(-20).with_category_from_str("expenses::car"),
        Transaction::new(-15).with_category_from_str("expenses::car::fuel"),
        Transaction::new(50).with_category_from_str("income"),
    ];
    let s: Summary<d128> = Summary::from_transactions(&transactions);
    let look = |path: &str| s.lookup(&Category::parse(path).unwrap()).unwrap();
    assert_eq!(s.data().sum(), d128::from(5));
    assert_eq!(s.data().n(), 4);
    assert_eq!(look("expenses").sum(), d128::from(-45));
    assert_eq!(look("expenses").n(), 3);
    assert_eq!(look("expenses::car").sum(), d128::from(-35));
    assert_eq!(look("expenses::car::fuel").sum(), d128::from(-15));
    assert_eq!(look("income").sum(), d128::from(50));
}

#[test]
fn add_touches_the_path_and_no_sibling() {
    let mut s = Summary::from_transactions(&household());
    s.add(&tx(7, "expenses::food"));
    assert_eq!(at(&s, ""), Some((5, 12)));
    assert_eq!(at(&s, "expenses"), Some((4, -38)));
    assert_eq!(at(&s, "expenses::food"), Some((1, 7)));
    assert_eq!(at(&s, "expenses::car"), Some((2, -35)));
    assert_eq!(at(&s, "expenses::car::fuel"), Some((1, -15)));
    assert_eq!(at(&s, "income"), Some((1, 50)));
}

#[test]
fn a_transaction_without_category_goes_to_the_root_alone() {
    let mut s = Summary::from_transactions(&household());
    s.add(&tx(100, ""));
    assert_eq!(at(&s, ""), Some((5, 105)));
    assert_eq!(at(&s, "expenses"), Some((3, -45)));
    assert_eq!(at(&s, "income"), Some((1, 50)));
}

#[test]
fn add_recursive_starts_at_the_given_depth() {
    let mut s: Summary<i64> = Summary::default();
    let c = Category::parse("a::b::c").unwrap();
    s.add_recursive(3, &c, 1);
    assert_eq!(at(&s, ""), Some((1, 3)));
    assert_eq!(at(&s, "b"), Some((1, 3)));
    assert_eq!(at(&s, "b::c"), Some((1, 3)));
    assert_eq!(at(&s, "a"), None);
    s.add_recursive(4, &c, 3);
    assert_eq!(at(&s, ""), Some((2, 7)));
    assert_eq!(at(&s, "b"), Some((1, 3)));
}

#[test]
fn flatten_is_a_pre_order_walk() {
    let s = Summary::from_transactions(&household());
    assert_eq!(
        flat(s),
        vec![
            (None, 4, 5),
            (Some("expenses".to_string()), 3, -45),
            (Some("expenses::car".to_string()), 2, -35),
            (Some("expenses::car::fuel".to_string()), 1, -15),
            (Some("income".to_string()), 1, 50),
        ]
    );
}

#[test]
fn flatten_puts_every_node_before_the_nodes_below_it() {
    let mut v = household();
    v.push(tx(1, "income::salary::bonus"));
    v.push(tx(2, "expenses::food"));
    v.push(tx(3, "a::b::c::d"));
    v.push(tx(4, "expenses::car::tyres"));
    let s = Summary::from_transactions(&v);
    let paths: Vec<Vec<String>> =
        s.flatten().into_iter().map(|(c, _)| c.tokens().clone()).collect();
    assert_eq!(paths.len(), 13);
    for (j, below) in paths.iter().enumerate() {
        for (i, above) in paths.iter().enumerate() {
            if above.len() < below.len() && below[..above.len()] == above[..] {
                assert!(i < j);
            }
        }
    }
    for (i, a) in paths.iter().enumerate() {
        for (j, b) in paths.iter().enumerate() {
            assert!(i == j || a != b);
        }
    }
}

#[test]
fn flatten_recursive_puts_the_root_at_the_given_path() {
    let s = Summary::from_transactions(&vec![tx(1, "x")]);
    let root = Category::parse("top").unwrap();
    let out: Vec<Option<String>> =
        s.flatten_recursive(&root).into_iter().map(|(c, _)| c.to_text()).collect();
    assert_eq!(out, vec![Some("top".to_string()), Some("top::x".to_string())]);
}

#[test]
fn one_at_a_time_equals_all_at_once() {
    let all = Summary::from_transactions(&household());
    let mut step: Summary<i64> = Summary::default();
    for t in household().iter() {
        step.add(t);
    }
    assert_eq!(flat(all), flat(step));
}
