use packed_str::array::{RawError, Static, Static2, Static3, StringArray3};
use packed_str::buffer::Buffer;
use packed_str::order::Order;
use packed_str::access::ReplaceError;
use packed_str::split::{IndexOutOfRange, SplitError, SplitRange};

#[test]
fn array_debug() {
    let array = Static3::<str>::new(["English", "Français", "中文"]);
    assert_eq!(array.debug_string(), r#"["English", "Français", "中文"]"#)
}

#[test]
#[should_panic]
fn array_panic_oob() {
    let array = <Static3<[u8]>>::default();
    let _ = array.index(3).unwrap();
}

#[test]
#[should_panic]
fn array_panic_oob_str() {
    let array = <Static3<str>>::default();
    let _ = array.index(3).unwrap();
}

#[test]
fn array_index() {
    let array = Static3::<str>::new(["English", "Français", "中文"]);
    let run = |range: SplitRange| array.slice(range).unwrap();
    assert_eq!(array.index(0).unwrap(), "English");
    assert_eq!(array.index(1).unwrap(), "Français");
    assert_eq!(array.index(2).unwrap(), "中文");
    assert_eq!(run(SplitRange::new(0, 0)), "");
    assert_eq!(run(SplitRange::new(0, 1)), "English");
    assert_eq!(run(SplitRange::new(0, 2)), "EnglishFrançais");
    assert_eq!(run(SplitRange::new(0, 3)), "EnglishFrançais中文");
    assert_eq!(run(SplitRange::new(1, 1)), "");
    assert_eq!(run(SplitRange::new(1, 2)), "Français");
    assert_eq!(run(SplitRange::new(1, 3)), "Français中文");
    assert_eq!(run(SplitRange::new(2, 2)), "");
    assert_eq!(run(SplitRange::new(2, 3)), "中文");
    assert_eq!(run(SplitRange::new(3, 3)), "");
    assert_eq!(run(SplitRange::from_start(0)), "EnglishFrançais中文");
    assert_eq!(run(SplitRange::from_start(1)), "Français中文");
    assert_eq!(run(SplitRange::from_start(2)), "中文");
    assert_eq!(run(SplitRange::from_start(3)), "");
    assert_eq!(run(SplitRange::to(0)), "");
    assert_eq!(run(SplitRange::to(1)), "English");
    assert_eq!(run(SplitRange::to(2)), "EnglishFrançais");
    assert_eq!(run(SplitRange::to(3)), "EnglishFrançais中文");
    assert_eq!(run(SplitRange::full()), "EnglishFrançais中文");
    assert_eq!(array.index(3).err(), Some(IndexOutOfRange));
}

#[test]
#[should_panic]
fn array_panic_left_oob() {
    let array = Static3::<str>::new(["English", "Français", "中文"]);
    let _ = array.slice(SplitRange::from_start(4)).unwrap();
}

#[test]
#[should_panic]
fn array_panic_right_oob() {
    let array = Static3::<str>::new(["English", "Français", "中文"]);
    let _ = array.slice(SplitRange::to(4)).unwrap();
}

#[test]
fn array_default_is_n_default_segments() {
    let array = <Static3<str>>::default();
    assert_eq!(array.len(), 3);
    assert_eq!(array.index(0).unwrap(), "");
    assert_eq!(array.index(1).unwrap(), "");
    assert_eq!(array.index(2).unwrap(), "");
    assert_eq!(array.slice(SplitRange::full()).unwrap(), "");
    let array = <Static<[u8], 5>>::default();
    assert_eq!(array.len(), 5);
    assert_eq!(array.index(4).unwrap(), &[0u8; 0][..]);
}

#[test]
fn array_round_trip() {
    let array = StringArray3::new(["English", "", "中文"]);
    let mut it = array.iter();
    assert_eq!(it.next(), Some("English"));
    assert_eq!(it.next(), Some(""));
    assert_eq!(it.next(), Some("中文"));
    assert_eq!(it.next(), None);
    assert!(array.eq_slice(&["English", "", "中文"]));
}

#[test]
fn array_from_raw_checked() {
    let array = Static3::<str>::from_raw(Buffer::Borrowed(&b"helloworldtoday"[..]), [5, 10, 15]);
    let array = match array {
        Ok(array) => array,
        Err(_) => panic!("valid parts were refused"),
    };
    assert_eq!(array.index(0).unwrap(), "hello");
    assert_eq!(array.index(1).unwrap(), "world");
    assert_eq!(array.index(2).unwrap(), "today");
    assert_eq!(array.slice(SplitRange::new(0, 2)).unwrap(), "helloworld");
    let owned = Static2::<str>::from_raw(Buffer::Owned(b"ab".to_vec()), [1, 2]);
    assert!(owned.is_ok());
}

#[test]
fn array_from_raw_reports_the_table() {
    let r = Static3::<str>::from_raw(Buffer::Borrowed(&b"helloworldtoday"[..]), [5, 3, 15]);
    assert!(matches!(r, Err(RawError::OffsetTableInvalid(SplitError::NotMonotonic(5, 3)))));
    let r = Static3::<str>::from_raw(Buffer::Borrowed(&b"helloworldtoday"[..]), [5, 10, 16]);
    assert!(matches!(r, Err(RawError::OffsetTableInvalid(SplitError::OutOfBounds(16)))));
    let r = Static3::<str>::from_raw(Buffer::Borrowed(&b"helloworldtoday"[..]), [17, 16, 20]);
    assert!(matches!(r, Err(RawError::OffsetTableInvalid(SplitError::NotMonotonic(17, 16)))));
}

#[test]
fn array_from_raw_reports_the_first_bad_segment() {
    let bytes = "a中文b".as_bytes();
    let r = Static3::<str>::from_raw(Buffer::Borrowed(bytes), [1, 4, 8]);
    assert!(r.is_ok());
    let r = Static3::<str>::from_raw(Buffer::Borrowed(bytes), [1, 5, 8]);
    assert!(matches!(r, Err(RawError::SegmentConversion { index: 1, .. })));
    let r = Static3::<str>::from_raw(Buffer::Borrowed(bytes), [2, 5, 8]);
    assert!(matches!(r, Err(RawError::SegmentConversion { index: 0, .. })));
    let r = Static3::<str>::from_raw(Buffer::Borrowed(bytes), [1, 4, 6]);
    assert!(matches!(r, Err(RawError::SegmentConversion { index: 2, .. })));
    let r = Static3::<[u8]>::from_raw(Buffer::Borrowed(bytes), [2, 5, 8]);
    assert!(r.is_ok());
}

#[test]
fn array_from_raw_with_room_behind_the_last_segment() {
    let r = Static3::<str>::from_raw(Buffer::Borrowed(&b"abcdef"[..]), [1, 2, 3]);
    let array = match r {
        Ok(array) => array,
        Err(_) => panic!("valid parts were refused"),
    };
    assert_eq!(array.index(2).unwrap(), "c");
    assert_eq!(array.slice(SplitRange::full()).unwrap(), "abc");
    assert_eq!(array.slice(SplitRange::from_start(3)).unwrap(), "");
}

#[test]
fn array_from_raw_unchecked() {
    let array = Static2::<str>::from_raw_unchecked(Buffer::Borrowed(&b"helloworld"[..]), [5, 10]);
    assert_eq!(array.index(0).unwrap(), "hello");
    assert_eq!(array.index(1).unwrap(), "world");
}

#[test]
fn array_set_writes_in_place() {
    let mut array = StringArray3::new(["English", "Français", "中文"]);
    assert_eq!(array.set(0, "ENGLISH"), Ok(()));
    assert_eq!(array.index(0).unwrap(), "ENGLISH");
    assert_eq!(array.index(1).unwrap(), "Français");
    assert_eq!(array.set(2, "abc"), Err(ReplaceError::LengthMismatch { expected: 6, found: 3 }));
    assert_eq!(array.set(3, "abc"), Err(ReplaceError::IndexOutOfRange));
    assert_eq!(array.slice(SplitRange::full()).unwrap(), "ENGLISHFrançais中文");
    let mut borrowed =
        match Static2::<str>::from_raw(Buffer::Borrowed(&b"helloworld"[..]), [5, 10]) {
            Ok(array) => array,
            Err(_) => panic!("valid parts were refused"),
        };
    assert_eq!(borrowed.set(1, "WORLD"), Ok(()));
    assert_eq!(borrowed.slice(SplitRange::full()).unwrap(), "helloWORLD");
}

#[test]
fn array_order_and_equality() {
    let a = Static2::<str>::new(["a", "ha"]);
    let b = Static2::<str>::new(["ah", "a"]);
    assert_eq!(a.compare(&b), Order::Less);
    assert!(!a.eq(&b));
    assert!(a.eq(&a.clone()));
    assert_eq!(a.cmp(&b), std::cmp::Ordering::Less);
    assert_eq!(b.cmp(&a), std::cmp::Ordering::Greater);
    assert_eq!(a.cmp(&a), std::cmp::Ordering::Equal);
    assert_eq!(a.index(2).err(), Some(IndexOutOfRange));
}

#[test]
fn array_offsets_are_cumulative() {
    let array = StringArray3::new(["English", "Français", "中文"]);
    let (buffer, table) = array.raw_parts();
    assert_eq!(table, &[7, 16, 22][..]);
    assert_eq!(buffer, "EnglishFrançais中文".as_bytes());
    assert_eq!(array.to_vec(), vec!["English", "Français", "中文"]);
    let array = <Static3<str>>::default();
    assert_eq!(array.raw_parts().1, &[0, 0, 0][..]);
    assert_eq!(array.raw_parts().0, b"");
}
