use packed_str::order::Order;
use packed_str::pair::StringPair;
use std::cmp::Ordering;

fn pair(s1: &str, s2: &str) -> StringPair {
    StringPair::new(s1.to_string(), s2)
}

#[test]
fn pair_raw_left() {
    assert_eq!(StringPair::from_raw("helloworld".to_string(), 5).unwrap().left(), "hello");
}

#[test]
fn pair_raw_right() {
    assert_eq!(StringPair::from_raw("helloworld".to_string(), 5).unwrap().right(), "world");
}

#[test]
fn pair_from_raw_rejects_what_is_no_boundary() {
    assert!(StringPair::from_raw("helloworld".to_string(), 11).is_none());
    assert!(StringPair::from_raw("中文".to_string(), 1).is_none());
    assert!(StringPair::from_raw("中文".to_string(), 2).is_none());
    assert!(StringPair::from_raw("中文".to_string(), 3).is_some());
    assert!(StringPair::from_raw("中文".to_string(), 0).is_some());
    assert!(StringPair::from_raw("中文".to_string(), 6).is_some());
    assert!(StringPair::from_raw(String::new(), 0).is_some());
    assert!(StringPair::from_raw(String::new(), 1).is_none());
}

#[test]
fn pair_from_raw_at_the_ends() {
    let p = StringPair::from_raw("helloworld".to_string(), 0).unwrap();
    assert_eq!(p.left(), "");
    assert_eq!(p.right(), "helloworld");
    let p = StringPair::from_raw("helloworld".to_string(), 10).unwrap();
    assert_eq!(p.left(), "helloworld");
    assert_eq!(p.right(), "");
}

#[test]
fn pair_from_raw_unchecked() {
    let p = StringPair::from_raw_unchecked("Français中文".to_string(), 9);
    assert_eq!(p.left(), "Français");
    assert_eq!(p.right(), "中文");
}

fn prop_left(s1: String, s2: String) -> bool {
    pair(&s1, &s2).left() == s1
}

fn prop_right(s1: String, s2: String) -> bool {
    pair(&s1, &s2).right() == s2
}

fn prop_order(s1: String, s2: String, s3: String, s4: String) -> bool {
    let lhs = pair(&s1, &s2);
    let rhs = pair(&s3, &s4);
    lhs.cmp(&rhs) == (&s1, &s2).cmp(&(&s3, &s4))
        && lhs.partial_cmp(&rhs) == (&s1, &s2).partial_cmp(&(&s3, &s4))
        && (lhs < rhs) == ((&s1, &s2) < (&s3, &s4))
}

fn prop_equal(s1: String, s2: String, s3: String, s4: String) -> bool {
    let lhs = pair(&s1, &s2);
    let rhs = pair(&s3, &s4);
    (lhs == rhs) == ((&s1, &s2) == (&s3, &s4)) && lhs == lhs.clone()
}

#[test]
fn pair_left() {
    quickcheck::QuickCheck::new().quickcheck(prop_left as fn(String, String) -> bool);
}

#[test]
fn pair_right() {
    quickcheck::QuickCheck::new().quickcheck(prop_right as fn(String, String) -> bool);
}

#[test]
fn pair_ord() {
    quickcheck::QuickCheck::new()
        .quickcheck(prop_order as fn(String, String, String, String) -> bool);
}

#[test]
fn pair_eq() {
    quickcheck::QuickCheck::new()
        .quickcheck(prop_equal as fn(String, String, String, String) -> bool);
}

#[test]
fn pair_order_examples() {
    assert_eq!(pair("a", "b").compare(&pair("a", "b")), Order::Equal);
    assert_eq!(pair("a", "b").compare(&pair("a", "c")), Order::Less);
    assert_eq!(pair("b", "a").compare(&pair("a", "c")), Order::Greater);
    assert_eq!(pair("a", "bc").compare(&pair("ab", "c")), Order::Less);
    assert_eq!(pair("ab", "c").cmp(&pair("a", "bc")), Ordering::Greater);
    assert_eq!(pair("", "").cmp(&pair("", "")), Ordering::Equal);
}

#[test]
fn pair_same_buffer_other_split_differs() {
    assert!(pair("a", "bc") != pair("ab", "c"));
    assert!(pair("ab", "c") == pair("ab", "c"));
}

#[test]
fn pair_debug() {
    assert_eq!(pair("hello", "world").debug_string(), r#"StringPair::new("hello", "world")"#);
    assert_eq!(pair("a\"b", "").debug_string(), r#"StringPair::new("a\"b", "")"#);
}

#[test]
fn pair_default() {
    let p = StringPair::default();
    assert_eq!(p.left(), "");
    assert_eq!(p.right(), "");
}
