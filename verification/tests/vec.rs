use packed_str::access::ReplaceError;
use packed_str::order::Order;
use packed_str::split::{IndexOutOfRange, SplitRange};
use packed_str::strlike::StrLike;
use packed_str::vec::Dynamic;
use std::fmt::Debug;

fn test_cmp<T: ?Sized + StrLike<Data = [u8]> + PartialEq + Debug>(test_slice: &[&T]) {
    let test_vec = test_slice.to_owned();

    let vec = Dynamic::<T>::from_slice(test_slice);
    let collect = vec.to_vec();

    assert!(vec.eq_slice(test_slice));
    assert!(vec.eq_slice(&test_vec));
    assert_eq!(collect, test_vec);
}

fn text(items: &[&str]) -> Dynamic<str> {
    Dynamic::from_slice(items)
}

fn run<'a>(vec: &'a Dynamic<str>, range: SplitRange) -> &'a str {
    vec.slice(range).unwrap()
}

#[test]
fn slice() {
    test_cmp::<[u8]>(&[&b"hello"[..], &b"world"[..], &b"123"[..]]);
}

#[test]
fn str() {
    test_cmp::<str>(&["what", "a", "wonderful", "day"]);
}

#[test]
fn vec_debug() {
    let vec = text(&["English", "Français", "中文"]);
    assert_eq!(vec.debug_string(), r#"["English", "Français", "中文"]"#)
}

#[test]
#[should_panic]
fn vec_panic_oob() {
    let vec = <Dynamic<[u8]>>::new();
    let _ = vec.index(0).unwrap();
}

#[test]
#[should_panic]
fn vec_panic_oob_str() {
    let vec = <Dynamic<str>>::new();
    let _ = vec.index(0).unwrap();
}

#[test]
fn vec_index() {
    let vec = text(&["English", "Français", "中文"]);
    assert_eq!(vec.index(0).unwrap(), "English");
    assert_eq!(vec.index(1).unwrap(), "Français");
    assert_eq!(vec.index(2).unwrap(), "中文");
    assert_eq!(run(&vec, SplitRange::new(0, 0)), "");
    assert_eq!(run(&vec, SplitRange::new(0, 1)), "English");
    assert_eq!(run(&vec, SplitRange::new(0, 2)), "EnglishFrançais");
    assert_eq!(run(&vec, SplitRange::new(0, 3)), "EnglishFrançais中文");
    assert_eq!(run(&vec, SplitRange::new(1, 1)), "");
    assert_eq!(run(&vec, SplitRange::new(1, 2)), "Français");
    assert_eq!(run(&vec, SplitRange::new(1, 3)), "Français中文");
    assert_eq!(run(&vec, SplitRange::new(2, 2)), "");
    assert_eq!(run(&vec, SplitRange::new(2, 3)), "中文");
    assert_eq!(run(&vec, SplitRange::new(3, 3)), "");
    assert_eq!(run(&vec, SplitRange::from_start(0)), "EnglishFrançais中文");
    assert_eq!(run(&vec, SplitRange::from_start(1)), "Français中文");
    assert_eq!(run(&vec, SplitRange::from_start(2)), "中文");
    assert_eq!(run(&vec, SplitRange::from_start(3)), "");
    assert_eq!(run(&vec, SplitRange::to(0)), "");
    assert_eq!(run(&vec, SplitRange::to(1)), "English");
    assert_eq!(run(&vec, SplitRange::to(2)), "EnglishFrançais");
    assert_eq!(run(&vec, SplitRange::to(3)), "EnglishFrançais中文");
    assert_eq!(run(&vec, SplitRange::full()), "EnglishFrançais中文");
}

#[test]
#[should_panic]
fn panic_oob_nonempty() {
    let vec = text(&["English", "Français", "中文"]);
    let _ = vec.index(3).unwrap();
}

#[test]
#[should_panic]
fn vec_panic_left_oob() {
    let vec = text(&["English", "Français", "中文"]);
    let _ = vec.slice(SplitRange::from_start(4)).unwrap();
}

#[test]
#[should_panic]
fn vec_panic_right_oob() {
    let vec = text(&["English", "Français", "中文"]);
    let _ = vec.slice(SplitRange::to(4)).unwrap();
}

#[test]
fn ord() {
    let fst = text(&["aha"]);
    let snd = text(&["ah", "a"]);
    let thd = text(&["a", "ha"]);
    let fth = text(&["a", "a"]);
    let slc = &mut [&fst, &snd, &thd, &fth];
    slc.sort_by(|a, b| a.cmp(b));
    assert!(slc[0].eq(&fth));
    assert!(slc[1].eq(&thd));
    assert!(slc[2].eq(&snd));
    assert!(slc[3].eq(&fst));
}

#[test]
fn pop() {
    let mut vec = text(&["English", "Français", "中文"]);
    assert_eq!(vec.pop(), true);
    assert_eq!(vec.pop(), true);
    assert_eq!(vec.pop(), true);
    assert_eq!(vec.pop(), false);
}

#[test]
fn new_is_empty() {
    let vec = <Dynamic<str>>::new();
    assert_eq!(vec.len(), 0);
    assert!(vec.is_empty());
    assert_eq!(vec.to_vec(), Vec::<&str>::new());
    assert_eq!(vec.slice(SplitRange::full()).unwrap(), "");
    assert_eq!(vec.slice(SplitRange::new(0, 0)).unwrap(), "");
    assert_eq!(vec.debug_string(), "[]");
    let vec = <Dynamic<str>>::default();
    assert!(vec.is_empty());
}

#[test]
fn push_adds_at_the_end() {
    let mut vec = <Dynamic<str>>::new();
    vec.push("a");
    assert_eq!(vec.len(), 1);
    assert!(!vec.is_empty());
    vec.push("");
    vec.push("bc");
    assert_eq!(vec.len(), 3);
    assert_eq!(vec.to_vec(), vec!["a", "", "bc"]);
    assert_eq!(vec.index(1).unwrap(), "");
    assert_eq!(vec.slice(SplitRange::full()).unwrap(), "abc");
}

#[test]
fn push_then_pop_off_scenario() {
    let mut vec = <Dynamic<str>>::new();
    vec.push("a");
    vec.push("b");
    assert_eq!(vec.pop_off(), Some("b".to_string()));
    assert!(vec.eq_slice(&["a"]));
    assert!(vec.eq(&text(&["a"])));
    assert_eq!(vec.len(), 1);
}

#[test]
fn push_pop_restores() {
    let before = text(&["English", "Français"]);
    let mut vec = before.clone();
    vec.push("中文");
    assert!(!vec.eq(&before));
    assert_eq!(vec.pop(), true);
    assert!(vec.eq(&before));
    assert_eq!(vec.to_vec(), before.to_vec());
    assert_eq!(vec.slice(SplitRange::full()).unwrap(), "EnglishFrançais");
}

#[test]
fn pop_off_gives_the_segments_backwards() {
    let mut vec = text(&["English", "Français", "中文"]);
    assert_eq!(vec.pop_off(), Some("中文".to_string()));
    assert_eq!(vec.pop_off(), Some("Français".to_string()));
    assert_eq!(vec.to_vec(), vec!["English"]);
    assert_eq!(vec.pop_off(), Some("English".to_string()));
    assert_eq!(vec.pop_off(), None);
    assert_eq!(vec.pop_off(), None);
    assert!(vec.is_empty());
}

#[test]
fn pop_off_slices() {
    let mut vec = <Dynamic<[u16]>>::from_slice(&[&[1u16, 2][..], &[][..], &[3u16][..]]);
    assert_eq!(vec.pop_off(), Some(vec![3u16]));
    assert_eq!(vec.pop_off(), Some(vec![]));
    assert_eq!(vec.pop_off(), Some(vec![1u16, 2]));
    assert_eq!(vec.pop_off(), None);
}

#[test]
fn split_off_then_append_restores() {
    let items = ["English", "", "Français", "中文"];
    for k in 0..=items.len() {
        let before = text(&items);
        let mut a = before.clone();
        let mut b = a.split_off(k).unwrap();
        assert_eq!(a.to_vec(), items[..k].to_vec());
        assert_eq!(b.to_vec(), items[k..].to_vec());
        assert_eq!(a.len() + b.len(), items.len());
        a.append(&mut b);
        assert!(b.is_empty());
        assert!(a.eq(&before));
        assert_eq!(a.to_vec(), items.to_vec());
    }
}

#[test]
fn split_off_beyond_the_end_fails() {
    let mut vec = text(&["English", "Français", "中文"]);
    assert!(matches!(vec.split_off(4), Err(IndexOutOfRange)));
    assert_eq!(vec.to_vec(), vec!["English", "Français", "中文"]);
    let tail = vec.split_off(3).unwrap();
    assert!(tail.is_empty());
    assert_eq!(vec.len(), 3);
}

#[test]
fn split_off_rebases_the_tail() {
    let mut vec = text(&["English", "Français", "中文"]);
    let tail = vec.split_off(1).unwrap();
    assert_eq!(tail.index(0).unwrap(), "Français");
    assert_eq!(tail.index(1).unwrap(), "中文");
    assert_eq!(tail.slice(SplitRange::full()).unwrap(), "Français中文");
    assert_eq!(vec.slice(SplitRange::full()).unwrap(), "English");
}

#[test]
fn append_moves_the_segments() {
    let mut a = text(&["a", "bc"]);
    let mut b = text(&["", "def"]);
    a.append(&mut b);
    assert_eq!(a.to_vec(), vec!["a", "bc", "", "def"]);
    assert_eq!(a.index(3).unwrap(), "def");
    assert!(b.is_empty());
    b.push("g");
    assert_eq!(b.to_vec(), vec!["g"]);
    let mut empty = <Dynamic<str>>::new();
    a.append(&mut empty);
    assert_eq!(a.len(), 4);
    empty.append(&mut a);
    assert_eq!(empty.to_vec(), vec!["a", "bc", "", "def"]);
    assert!(a.is_empty());
}

#[test]
fn truncate_keeps_the_first() {
    let mut vec = text(&["English", "Français", "中文"]);
    vec.truncate(5);
    assert_eq!(vec.len(), 3);
    vec.truncate(3);
    assert_eq!(vec.len(), 3);
    vec.truncate(2);
    assert_eq!(vec.to_vec(), vec!["English", "Français"]);
    assert_eq!(vec.slice(SplitRange::full()).unwrap(), "EnglishFrançais");
    vec.truncate(0);
    assert!(vec.is_empty());
    assert_eq!(vec.slice(SplitRange::full()).unwrap(), "");
    vec.push("x");
    assert_eq!(vec.to_vec(), vec!["x"]);
}

#[test]
fn clear_removes_everything() {
    let mut vec = text(&["English", "Français", "中文"]);
    vec.clear();
    assert!(vec.is_empty());
    assert_eq!(vec.slice(SplitRange::full()).unwrap(), "");
    vec.push("again");
    assert_eq!(vec.to_vec(), vec!["again"]);
}

#[test]
fn capacities_are_hints() {
    let mut vec = <Dynamic<str>>::with_capacities(4, 32);
    assert!(vec.is_empty());
    assert!(vec.num_capacity() >= 4);
    assert!(vec.data_capacity() >= 32);
    vec.push("English");
    vec.push("Français");
    vec.reserve(10, 100);
    assert!(vec.num_capacity() >= 12);
    assert!(vec.data_capacity() >= 116);
    assert_eq!(vec.to_vec(), vec!["English", "Français"]);
    vec.reserve_exact(20, 200);
    assert!(vec.num_capacity() >= 22);
    assert!(vec.data_capacity() >= 216);
    assert_eq!(vec.to_vec(), vec!["English", "Français"]);
    vec.shrink_to_fit();
    assert!(vec.num_capacity() >= 2);
    assert!(vec.data_capacity() >= 16);
    assert_eq!(vec.to_vec(), vec!["English", "Français"]);
    let fresh = <Dynamic<str>>::new();
    assert_eq!(fresh.data_capacity(), 0);
}

#[test]
fn iter_is_restartable() {
    let vec = text(&["English", "Français", "中文"]);
    let mut it = vec.iter();
    assert_eq!(it.next(), Some("English"));
    let mut copy = it.clone();
    assert_eq!(it.next(), Some("Français"));
    assert_eq!(it.next(), Some("中文"));
    assert_eq!(it.next(), None);
    assert_eq!(it.next(), None);
    assert_eq!(copy.next(), Some("Français"));
    let mut again = vec.iter();
    assert_eq!(again.next(), Some("English"));
}

#[test]
fn round_trip() {
    let items = ["", "English", "", "Français", "中文", ""];
    let vec = text(&items);
    assert_eq!(vec.to_vec(), items.to_vec());
    assert_eq!(vec.len(), 6);
    let none: [&str; 0] = [];
    assert_eq!(text(&none).to_vec(), none.to_vec());
}

#[test]
fn extend_adds_in_order() {
    let mut vec = text(&["a"]);
    vec.extend(&["b", "", "cd"]);
    assert_eq!(vec.to_vec(), vec!["a", "b", "", "cd"]);
    vec.extend(&[]);
    assert_eq!(vec.len(), 4);
}

#[test]
fn index_at_segment_count_fails() {
    let vec = text(&["English", "Français", "中文"]);
    assert_eq!(vec.index(3).err(), Some(IndexOutOfRange));
    assert_eq!(vec.index(usize::MAX).err(), Some(IndexOutOfRange));
    assert_eq!(vec.slice(SplitRange::new(0, 4)).err(), Some(IndexOutOfRange));
    assert_eq!(vec.slice(SplitRange::new(2, 1)).err(), Some(IndexOutOfRange));
    assert_eq!(vec.slice(SplitRange::new(4, 4)).err(), Some(IndexOutOfRange));
}

#[test]
fn slice_is_the_concatenation() {
    let items = ["English", "", "Français", "中文"];
    let vec = text(&items);
    for lo in 0..=items.len() {
        for hi in lo..=items.len() {
            let expected: String = items[lo..hi].concat();
            assert_eq!(vec.slice(SplitRange::new(lo, hi)).unwrap(), expected);
        }
    }
}

#[test]
fn set_writes_in_place() {
    let mut vec = text(&["English", "Français", "中文"]);
    assert_eq!(vec.set(0, "ENGLISH"), Ok(()));
    assert_eq!(vec.set(2, "日本"), Ok(()));
    assert_eq!(vec.to_vec(), vec!["ENGLISH", "Français", "日本"]);
    assert_eq!(vec.slice(SplitRange::full()).unwrap(), "ENGLISHFrançais日本");
    assert_eq!(vec.set(1, "Francais"), Err(ReplaceError::LengthMismatch { expected: 9, found: 8 }));
    assert_eq!(vec.set(3, ""), Err(ReplaceError::IndexOutOfRange));
    assert_eq!(vec.to_vec(), vec!["ENGLISH", "Français", "日本"]);
}

#[test]
fn set_slices_in_place() {
    let mut vec = <Dynamic<[u32]>>::from_slice(&[&[1u32, 2][..], &[][..], &[3u32][..]]);
    assert_eq!(vec.set(0, &[7, 8]), Ok(()));
    assert_eq!(vec.set(1, &[]), Ok(()));
    assert_eq!(vec.set(2, &[9]), Ok(()));
    assert_eq!(vec.to_vec(), vec![&[7u32, 8][..], &[][..], &[9u32][..]]);
    assert_eq!(vec.set(1, &[1]), Err(ReplaceError::LengthMismatch { expected: 0, found: 1 }));
}

#[test]
fn slices_of_wider_elements() {
    let mut vec = <Dynamic<[u64]>>::new();
    vec.push(&[1, 2, 3]);
    vec.push(&[]);
    vec.push(&[4]);
    assert_eq!(vec.index(0).unwrap(), &[1u64, 2, 3][..]);
    assert_eq!(vec.index(1).unwrap(), &[0u64; 0][..]);
    assert_eq!(vec.index(2).unwrap(), &[4u64][..]);
    assert_eq!(vec.slice(SplitRange::new(0, 3)).unwrap(), &[1u64, 2, 3, 4][..]);
    assert_eq!(vec.slice(SplitRange::new(1, 2)).unwrap(), &[0u64; 0][..]);
    assert_eq!(vec.pop(), true);
    assert_eq!(vec.slice(SplitRange::full()).unwrap(), &[1u64, 2, 3][..]);
}

#[test]
fn clone_is_independent() {
    let vec = text(&["English", "Français"]);
    let mut copy = vec.clone();
    copy.push("中文");
    assert_eq!(vec.to_vec(), vec!["English", "Français"]);
    assert_eq!(copy.to_vec(), vec!["English", "Français", "中文"]);
}

#[test]
fn equality_is_by_segments() {
    assert!(!text(&["ab", "c"]).eq(&text(&["a", "bc"])));
    assert!(!text(&["ab", "c"]).eq(&text(&["abc"])));
    assert!(text(&["ab", "c"]).eq(&text(&["ab", "c"])));
    assert!(text(&[]).eq(&<Dynamic<str>>::new()));
    assert!(!text(&[""]).eq(&text(&[])));
    assert!(!text(&["ab", "c"]).eq_slice(&["ab"]));
    assert!(!text(&["ab"]).eq_slice(&["ab", "c"]));
    assert!(!text(&["ab", "c"]).eq_slice(&["ab", "d"]));
}

fn prop_pop_off(items: Vec<String>) -> bool {
    let refs: Vec<&str> = items.iter().map(String::as_str).collect();
    let mut vec = text(&refs);
    let cloned = vec.clone();
    let mut owned = Vec::new();
    while let Some(item) = vec.pop_off() {
        owned.push(item);
    }
    owned.reverse();
    let back: Vec<&str> = owned.iter().map(String::as_str).collect();
    back == cloned.to_vec() && back == refs
}

fn prop_extend(items: Vec<String>) -> bool {
    let refs: Vec<&str> = items.iter().map(String::as_str).collect();
    let mut extend = <Dynamic<str>>::new();
    extend.extend(&refs);
    let collect = text(&refs);
    extend.eq(&collect)
}

fn prop_order(a: Vec<String>, b: Vec<String>) -> bool {
    let ra: Vec<&str> = a.iter().map(String::as_str).collect();
    let rb: Vec<&str> = b.iter().map(String::as_str).collect();
    let va = text(&ra);
    let vb = text(&rb);
    va.cmp(&vb) == ra.cmp(&rb) && va.partial_cmp(&vb) == ra.partial_cmp(&rb)
        && (va == vb) == (ra == rb) && (va < vb) == (ra < rb)
        && (va.compare(&vb) == Order::Less) == (ra < rb)
}

fn prop_split_append(items: Vec<String>, at: usize) -> bool {
    let refs: Vec<&str> = items.iter().map(String::as_str).collect();
    let before = text(&refs);
    let k = at % (refs.len() + 1);
    let mut a = before.clone();
    let mut b = a.split_off(k).unwrap();
    a.append(&mut b);
    a.eq(&before) && a.to_vec() == refs
}

#[test]
fn pop_off() {
    quickcheck::QuickCheck::new().quickcheck(prop_pop_off as fn(Vec<String>) -> bool);
}

#[test]
fn extend() {
    quickcheck::QuickCheck::new().quickcheck(prop_extend as fn(Vec<String>) -> bool);
}

#[test]
fn order_matches_lists_of_strings() {
    quickcheck::QuickCheck::new().quickcheck(prop_order as fn(Vec<String>, Vec<String>) -> bool);
}

#[test]
fn split_append_inverse() {
    quickcheck::QuickCheck::new()
        .quickcheck(prop_split_append as fn(Vec<String>, usize) -> bool);
}

#[test]
fn slices_of_numbers_are_ordered() {
    let a = <Dynamic<[i32]>>::from_slice(&[&[1, -2][..], &[3][..]]);
    let b = <Dynamic<[i32]>>::from_slice(&[&[1, -2][..], &[3][..]]);
    let c = <Dynamic<[i32]>>::from_slice(&[&[1][..], &[-2, 3][..]]);
    let d = <Dynamic<[i32]>>::from_slice(&[&[1, -3][..], &[9][..]]);
    assert!(a.eq(&b));
    assert!(!a.eq(&c));
    assert_eq!(c.compare(&a), Order::Less);
    assert_eq!(d.compare(&a), Order::Less);
    assert_eq!(a.cmp(&b), std::cmp::Ordering::Equal);
    assert_eq!(a.cmp(&d), std::cmp::Ordering::Greater);
    assert!(a.eq_slice(&[&[1, -2][..], &[3][..]]));
}

fn assert_table(vec: &Dynamic<str>) {
    let (buffer, table) = vec.raw_parts();
    let mut prev = 0;
    for &end in table {
        assert!(prev <= end);
        prev = end;
    }
    assert_eq!(prev, buffer.len());
    assert_eq!(vec.data_len(), buffer.len());
    assert_eq!(table.len(), vec.len());
}

#[test]
fn offsets_stay_monotonic() {
    let mut vec = <Dynamic<str>>::new();
    assert_table(&vec);
    vec.push("English");
    assert_table(&vec);
    vec.push("");
    vec.push("Français");
    assert_table(&vec);
    assert_eq!(vec.raw_parts().1, &[7, 7, 16][..]);
    assert_eq!(vec.raw_parts().0, "EnglishFrançais".as_bytes());
    let mut tail = vec.split_off(1).unwrap();
    assert_table(&vec);
    assert_table(&tail);
    assert_eq!(tail.raw_parts().1, &[0, 9][..]);
    tail.append(&mut vec);
    assert_table(&vec);
    assert_table(&tail);
    assert_eq!(tail.raw_parts().1, &[0, 9, 16][..]);
    tail.truncate(2);
    assert_table(&tail);
    tail.pop();
    assert_table(&tail);
    assert_eq!(tail.set(0, ""), Ok(()));
    assert_table(&tail);
    tail.extend(&["中文", "x"]);
    assert_table(&tail);
    assert_eq!(tail.raw_parts().1, &[0, 6, 7][..]);
    tail.pop_off();
    assert_table(&tail);
    tail.clear();
    assert_table(&tail);
}

#[test]
fn cursor_collects_what_is_left() {
    let vec = text(&["English", "Français", "中文"]);
    let mut it = vec.iter();
    it.next();
    assert_eq!(it.clone().collect(), vec!["Français", "中文"]);
    it.next();
    it.next();
    assert_eq!(it.collect(), Vec::<&str>::new());
}
