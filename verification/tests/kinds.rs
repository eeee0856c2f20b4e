use packed_str::buffer::Buffer;
use packed_str::order::{compare_units, OrdUnit, Order};
use packed_str::strlike::{OwnsStrData, StrData, StrLike, StrLikeMut};

#[test]
fn str_kind_converts_to_bytes_and_back() {
    let s = "Français";
    assert_eq!(StrLike::to_data(s), s.as_bytes());
    assert_eq!(<str as StrLike>::from_data(s.as_bytes()).unwrap(), s);
    assert_eq!(<str as StrLike>::from_data_unchecked(s.as_bytes()), s);
    assert!(<str as StrLike>::from_data(&[0xff, 0xfe]).is_err());
    assert!(<str as StrLike>::from_data(&"中".as_bytes()[..2]).is_err());
    assert_eq!(<str as StrLike>::from_data(&[]).unwrap(), "");
    assert_eq!(<str as StrLike>::default_ref(), "");
    assert_eq!(StrLike::to_owned_segment("abc"), "abc".to_string());
}

#[test]
fn slice_kind_is_its_own_data() {
    let s: &[u16] = &[1, 2, 3];
    assert_eq!(StrLike::to_data(s), s);
    assert_eq!(<[u16] as StrLike>::from_data(s).ok(), Some(s));
    assert_eq!(<[u16] as StrLike>::from_data_unchecked(s), s);
    assert_eq!(<[u16] as StrLike>::default_ref(), &[0u16; 0][..]);
    assert_eq!(StrLike::to_owned_segment(s), vec![1u16, 2, 3]);
}

#[test]
fn mutable_views_write_through() {
    let mut bytes = *b"hello";
    {
        let s = <str as StrLikeMut>::from_data_mut(&mut bytes[..]).unwrap();
        s.make_ascii_uppercase();
    }
    assert_eq!(&bytes, b"HELLO");
    {
        let s = <str as StrLikeMut>::from_data_mut_unchecked(&mut bytes[1..3]);
        s.make_ascii_lowercase();
    }
    assert_eq!(&bytes, b"HelLO");
    let mut bad = [0xffu8, 0x00];
    assert!(<str as StrLikeMut>::from_data_mut(&mut bad[..]).is_err());
    assert_eq!(bad, [0xffu8, 0x00]);
    let mut nums = [1u32, 2, 3];
    {
        let s = <[u32] as StrLikeMut>::from_data_mut(&mut nums[..]).ok().unwrap();
        s[1] = 20;
    }
    assert_eq!(nums, [1, 20, 3]);
}

#[test]
fn raw_data_of_slices() {
    let data: &[u8] = b"hello world";
    assert_eq!(StrData::len(data), 11);
    let (a, b) = StrData::split_at(data, 5);
    assert_eq!(a, b"hello");
    assert_eq!(b, b" world");
    let (a, b) = StrData::split_at(data, 0);
    assert_eq!(a, b"");
    assert_eq!(b, data);
    let (a, b) = StrData::split_at(data, 11);
    assert_eq!(a, data);
    assert_eq!(b, b"");
    assert_eq!(<[u8] as StrData>::default_ref(), b"");
}

#[test]
fn owned_data_of_vectors() {
    let mut buf = <Vec<u8> as OwnsStrData<[u8]>>::from_data(b"hello");
    assert_eq!(buf, b"hello");
    OwnsStrData::push_back(&mut buf, &b" world"[..]);
    assert_eq!(buf, b"hello world");
    assert_eq!(OwnsStrData::<[u8]>::len(&buf), 11);
    assert!(OwnsStrData::<[u8]>::capacity(&buf) >= 11);
    assert_eq!(OwnsStrData::<[u8]>::borrow(&buf), &b"hello world"[..]);
    OwnsStrData::overwrite(&mut buf, 6, &b"WORLD"[..]);
    assert_eq!(buf, b"hello WORLD");
    OwnsStrData::overwrite(&mut buf, 0, &b""[..]);
    assert_eq!(buf, b"hello WORLD");
    let tail = OwnsStrData::<[u8]>::split_off(&mut buf, 5);
    assert_eq!(buf, b"hello");
    assert_eq!(tail, b" WORLD");
    OwnsStrData::<[u8]>::truncate(&mut buf, 9);
    assert_eq!(buf, b"hello");
    OwnsStrData::<[u8]>::truncate(&mut buf, 2);
    assert_eq!(buf, b"he");
    OwnsStrData::<[u8]>::reserve(&mut buf, 50);
    assert!(OwnsStrData::<[u8]>::capacity(&buf) >= 52);
    OwnsStrData::<[u8]>::reserve_exact(&mut buf, 70);
    assert!(OwnsStrData::<[u8]>::capacity(&buf) >= 72);
    OwnsStrData::<[u8]>::shrink_to_fit(&mut buf);
    assert_eq!(buf, b"he");
    OwnsStrData::<[u8]>::clear(&mut buf);
    assert_eq!(buf, b"");
    let fresh = <Vec<u8> as OwnsStrData<[u8]>>::with_capacity(9);
    assert_eq!(fresh, b"");
    assert!(OwnsStrData::<[u8]>::capacity(&fresh) >= 9);
}

#[test]
fn buffer_borrowed_or_owned() {
    let borrowed: Buffer<str> = Buffer::Borrowed(&b"abc"[..]);
    assert_eq!(borrowed.len(), 3);
    assert_eq!(borrowed.capacity(), 3);
    assert_eq!(borrowed.borrow(), b"abc");
    assert!(matches!(borrowed.duplicate(), Buffer::Borrowed(_)));
    assert_eq!(borrowed.into_owned(), b"abc".to_vec());
    let owned: Buffer<str> = Buffer::Owned(b"abcd".to_vec());
    assert_eq!(owned.len(), 4);
    assert!(owned.capacity() >= 4);
    assert_eq!(owned.duplicate().borrow(), b"abcd");
    assert_eq!(owned.into_owned(), b"abcd".to_vec());
    let empty: Buffer<str> = Buffer::empty();
    assert_eq!(empty.len(), 0);
    assert!(matches!(empty, Buffer::Borrowed(_)));
}

#[test]
fn bytes_compare_lexicographically() {
    assert_eq!(compare_units(&b""[..], &b""[..]), Order::Equal);
    assert_eq!(compare_units(&b""[..], &b"a"[..]), Order::Less);
    assert_eq!(compare_units(&b"a"[..], &b""[..]), Order::Greater);
    assert_eq!(compare_units(&b"abc"[..], &b"abd"[..]), Order::Less);
    assert_eq!(compare_units(&b"abd"[..], &b"abc"[..]), Order::Greater);
    assert_eq!(compare_units(&b"ab"[..], &b"abc"[..]), Order::Less);
    assert_eq!(compare_units(&b"abc"[..], &b"abc"[..]), Order::Equal);
    assert_eq!(compare_units(&b"b"[..], &b"abc"[..]), Order::Greater);
    assert_eq!(compare_units::<u8>(&[0xff], &[0x00, 0x01]), Order::Greater);
    assert_eq!(Order::Less.to_ordering(), std::cmp::Ordering::Less);
    assert_eq!(Order::Equal.to_ordering(), std::cmp::Ordering::Equal);
    assert_eq!(Order::Greater.to_ordering(), std::cmp::Ordering::Greater);
}

#[test]
fn units_compare_by_size() {
    assert_eq!(3u8.compare_unit(&4), Order::Less);
    assert_eq!(4u8.compare_unit(&4), Order::Equal);
    assert_eq!(5u8.compare_unit(&4), Order::Greater);
    assert_eq!((-1i16).compare_unit(&1), Order::Less);
    assert_eq!(i64::MAX.compare_unit(&i64::MIN), Order::Greater);
    assert_eq!(u128::MAX.compare_unit(&u128::MAX), Order::Equal);
    assert_eq!(0usize.compare_unit(&usize::MAX), Order::Less);
    assert_eq!(compare_units::<i32>(&[-5, 2], &[-5, 1]), Order::Greater);
    assert_eq!(compare_units::<i32>(&[-5], &[-5, i32::MIN]), Order::Less);
    assert_eq!(compare_units::<u64>(&[], &[]), Order::Equal);
}
