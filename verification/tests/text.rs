use packed_str::text::{debug_list, quote_all, write_enclosed};
use packed_str::vec::Dynamic;

fn strings(items: &[&str]) -> Vec<String> {
    items.iter().map(|s| s.to_string()).collect()
}

#[test]
fn write_enclosed_joins_with_commas() {
    assert_eq!(write_enclosed("[", &strings(&[]), "]"), "[]");
    assert_eq!(write_enclosed("[", &strings(&["a"]), "]"), "[a]");
    assert_eq!(write_enclosed("[", &strings(&["a", "bc"]), "]"), "[a, bc]");
    assert_eq!(write_enclosed("f(", &strings(&["a", "", "c"]), ")"), "f(a, , c)");
    assert_eq!(write_enclosed("", &strings(&["", ""]), ""), ", ");
}

#[test]
fn quote_all_quotes_each_segment() {
    let vec = Dynamic::<str>::from_slice(&["English", "a\"b", "", "中文", "tab\there"]);
    let quoted = quote_all(vec.iter());
    assert_eq!(quoted, strings(&["\"English\"", "\"a\\\"b\"", "\"\"", "\"中文\"", "\"tab\\there\""]));
    let mut it = vec.iter();
    it.next();
    it.next();
    assert_eq!(debug_list(it), "[\"\", \"中文\", \"tab\\there\"]");
}
