use budget_lib::category::{collect_sentence, collect_tokens};
use budget_lib::{Category, ParseError};
use std::str::FromStr;

fn segments(c: &Category) -> Vec<String> {
    c.tokens().clone()
}

fn strings(v: &[&str]) -> Vec<String> {
    v.iter().map(|s| s.to_string()).collect()
}

#[test]
fn parse_splits_on_the_separator() {
    let c = Category::parse("a::b::c").unwrap();
    assert_eq!(segments(&c), strings(&["a", "b", "c"]));
    assert_eq!(c.depth(), 3);
    assert!(!c.is_empty());
}

#[test]
fn parse_of_a_single_segment() {
    let c = Category::parse("income").unwrap();
    assert_eq!(segments(&c), strings(&["income"]));
    assert_eq!(c.depth(), 1);
}

#[test]
fn parse_refuses_only_the_empty_text() {
    assert_eq!(Category::parse("").err(), Some(ParseError::EmptyInput));
    assert_eq!(Category::from_str("").err(), Some(ParseError::EmptyInput));
}

#[test]
fn parse_keeps_empty_segments() {
    let c = Category::parse("a::::b").unwrap();
    assert_eq!(segments(&c), strings(&["a", "", "b"]));
    let d = Category::parse("::").unwrap();
    assert_eq!(segments(&d), strings(&["", ""]));
    let e = Category::parse("::a").unwrap();
    assert_eq!(segments(&e), strings(&["", "a"]));
}

#[test]
fn parse_takes_separators_from_the_left() {
    let c = Category::parse("a:::b").unwrap();
    assert_eq!(segments(&c), strings(&["a", ":b"]));
    let d = Category::parse("a:b").unwrap();
    assert_eq!(segments(&d), strings(&["a:b"]));
    let e = Category::parse(":").unwrap();
    assert_eq!(segments(&e), strings(&[":"]));
}

#[test]
fn parse_handles_text_beyond_ascii() {
    let c = Category::parse("café::thé").unwrap();
    assert_eq!(segments(&c), strings(&["café", "thé"]));
}

#[test]
fn from_str_agrees_with_parse() {
    let a = Category::from_str("expenses::car").unwrap();
    let b = Category::parse("expenses::car").unwrap();
    assert_eq!(a, b);
    assert!(a.same_path(&b));
}

#[test]
fn written_form_of_a_path() {
    let c = Category::parse("expenses::car::fuel").unwrap();
    assert_eq!(c.to_text(), Some("expenses::car::fuel".to_string()));
    assert_eq!(Category::new().to_text(), None);
    assert_eq!(Category::default().to_text(), None);
}

#[test]
fn parse_of_written_form_gives_the_path_back() {
    for text in ["a", "a::b", "expenses::car::fuel", "x::y::z::w", "a:b::c", "a::b:"] {
        let c = Category::parse(text).unwrap();
        let written = c.to_text().unwrap();
        assert_eq!(written, text);
        assert_eq!(Category::parse(&written).unwrap(), c);
    }
}

#[test]
fn a_segment_that_ends_in_a_colon_does_not_survive_writing() {
    let c = Category::new().with_subcategory("a:".to_string()).with_subcategory("b".to_string());
    let written = c.to_text().unwrap();
    assert_eq!(written, "a:::b");
    assert_ne!(Category::parse(&written).unwrap(), c);
}

#[test]
fn take_top_category_moves_the_path_up() {
    let mut c = Category::parse("a::b::c").unwrap();
    assert_eq!(c.take_top_category(), Some("a".to_string()));
    assert_eq!(segments(&c), strings(&["b", "c"]));
    assert_eq!(c.take_top_category(), Some("b".to_string()));
    assert_eq!(c.take_top_category(), Some("c".to_string()));
    assert!(c.is_empty());
    assert_eq!(c.take_top_category(), None);
    assert!(c.is_empty());
}

#[test]
fn add_subcategory_appends() {
    let mut c = Category::new();
    assert!(c.is_empty());
    assert_eq!(c.depth(), 0);
    c.add_subcategory("expenses".to_string());
    c.add_subcategory("car".to_string());
    assert_eq!(segments(&c), strings(&["expenses", "car"]));
    assert_eq!(c.index(0), "expenses");
    assert_eq!(c.index(1), "car");
    let d = c.clone().with_subcategory("fuel".to_string());
    assert_eq!(segments(&d), strings(&["expenses", "car", "fuel"]));
    assert_eq!(segments(&c), strings(&["expenses", "car"]));
}

#[test]
fn categories_compare_by_segments() {
    let a = Category::parse("a::b").unwrap();
    let b = Category::parse("a::b").unwrap();
    let c = Category::parse("a::c").unwrap();
    let d = Category::parse("a").unwrap();
    assert!(a == b);
    assert!(a != c);
    assert!(a != d);
    assert!(!a.same_path(&d));
}

#[test]
fn collect_tokens_joins_with_the_separator() {
    assert_eq!(collect_tokens(&strings(&["a", "b", "c"]), "::"), "a::b::c");
    assert_eq!(collect_tokens(&strings(&["a"]), "::"), "a");
    assert_eq!(collect_tokens(&strings(&[]), "::"), "");
    assert_eq!(collect_tokens(&strings(&["", ""]), "-"), "-");
}

#[test]
fn collect_sentence_joins_with_spaces() {
    assert_eq!(collect_sentence(&strings(&["today", "I", "found", "$20"])), "today I found $20");
    assert_eq!(collect_sentence(&strings(&["one"])), "one");
    assert_eq!(collect_sentence(&strings(&[])), "");
}

#[test]
fn categories_are_ordered_by_segments() {
    let a = Category::parse("a").unwrap();
    let ab = Category::parse("a::b").unwrap();
    let ac = Category::parse("a::c").unwrap();
    let b = Category::parse("b").unwrap();
    assert!(Category::new() < a);
    assert!(a < ab && ab < ac && ac < b);
    let mut v = vec![b.clone(), ac.clone(), a.clone(), ab.clone()];
    v.sort();
    assert_eq!(v, vec![a, ab, ac, b]);
}

#[test]
fn option_from_category_is_the_written_form() {
    let c = Category::parse("a::b").unwrap();
    assert_eq!(Option::<String>::from(c), Some("a::b".to_string()));
    assert_eq!(Option::<String>::from(Category::new()), None);
}

#[test]
fn option_from_a_parsed_text_is_that_text() {
    for text in ["a", "a::b", "expenses::car::fuel", "a::::b", "::"] {
        let c = Category::from_str(text).unwrap();
        assert_eq!(Option::<String>::from(c), Some(text.to_string()));
    }
    assert_eq!(Option::<String>::from(Category::default()), None);
}
