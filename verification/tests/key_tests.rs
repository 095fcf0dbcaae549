use std::cmp::Ordering;

use kvstructs::{
    compare_key, has_prefix, has_suffix, longest_prefix, longest_suffix, same_key, Key, KeyExt,
    KeyMut, KeyMutExt, KeyRef,
};

#[test]
fn newer_timestamp_sorts_first() {
    // the key written later (larger timestamp) must come first
    let newer = Key::from_with_timestamp(b"apple".to_vec(), 100);
    let older = Key::from_with_timestamp(b"apple".to_vec(), 50);
    assert_eq!(compare_key(newer.clone(), older.clone()), Ordering::Less);
    assert_eq!(compare_key(older, newer), Ordering::Greater);
}

#[test]
fn compare_key_orders_user_keys_first() {
    let a = Key::from_with_timestamp(b"a".to_vec(), 1);
    let aa = Key::from_with_timestamp(b"aa".to_vec(), 100);
    assert_eq!(compare_key(a.clone(), aa.clone()), Ordering::Less);
    assert_eq!(compare_key(aa, a.clone()), Ordering::Greater);
    assert_eq!(compare_key(a.clone(), a), Ordering::Equal);
}

#[test]
fn same_key_ignores_timestamp() {
    let k5 = Key::from_with_timestamp(b"key".to_vec(), 5);
    let k9 = Key::from_with_timestamp(b"key".to_vec(), 9);
    assert!(same_key(k5.clone(), k9.clone()));
    // differing user keys of equal total length are not the same key
    let other = Key::from_with_timestamp(b"kez".to_vec(), 5);
    assert!(!same_key(k5.clone(), other));
    // differing lengths are never the same key
    let longer = Key::from_with_timestamp(b"keyy".to_vec(), 5);
    assert!(!same_key(k5, longer));
}

#[test]
fn key_equality_operator_uses_same_key() {
    let k1 = Key::from_with_timestamp(b"key".to_vec(), 1);
    let k2 = Key::from_with_timestamp(b"key".to_vec(), 2);
    let k3 = Key::from_with_timestamp(b"kez".to_vec(), 1);
    assert!(k1 == k2);
    assert!(k1 != k3);
    assert!(k1 < k3);
}

#[test]
fn key_ref_and_key_mut_operators() {
    let a = Key::from_with_timestamp(b"key".to_vec(), 1);
    let b = Key::from_with_timestamp(b"key".to_vec(), 2);
    let c = Key::from_with_timestamp(b"kez".to_vec(), 1);
    assert!(a.as_key_ref() == b.as_key_ref());
    assert!(a.as_key_ref() != c.as_key_ref());
    assert!(a.as_key_ref() < c.as_key_ref());

    let mut m1 = KeyMut::new();
    m1.put_slice(a.as_slice());
    let mut m2 = KeyMut::new();
    m2.put_slice(b.as_slice());
    let mut m3 = KeyMut::new();
    m3.put_slice(c.as_slice());
    assert!(m1 == m2);
    assert!(m1 != m3);
    assert!(m1 < m3);
}

#[test]
fn parse_key_and_timestamp() {
    let k = Key::from_with_timestamp(b"user".to_vec(), 77);
    assert_eq!(k.len(), 12);
    assert_eq!(k.parse_key(), b"user");
    assert_eq!(k.parse_timestamp(), 77);
    assert_eq!(k.parse_new_key().as_slice(), b"user");

    let mut trunc = k.clone();
    trunc.truncate_timestamp();
    assert_eq!(trunc.as_slice(), b"user");
}

#[test]
fn short_keys_are_all_user_key() {
    let short = Key::copy_from_slice(b"abc");
    assert_eq!(short.parse_key(), b"abc");
    assert_eq!(short.parse_timestamp(), 0);
    assert_eq!(short.parse_new_key().as_slice(), b"abc");

    let eight = Key::copy_from_slice(&[1, 2, 3, 4, 5, 6, 7, 8]);
    assert_eq!(eight.parse_key(), &[1, 2, 3, 4, 5, 6, 7, 8]);
    assert_eq!(eight.parse_timestamp(), 0);
}

#[test]
fn timestamp_suffix_bytes_are_complemented() {
    let k = Key::from_with_timestamp(b"u".to_vec(), 5);
    let raw = k.as_slice();
    assert_eq!(raw.len(), 9);
    assert_eq!(&raw[0..1], b"u");
    assert_eq!(&raw[1..9], (u64::MAX - 5).to_be_bytes().as_slice());
}

#[test]
fn key_slicing_and_splitting() {
    let mut k = Key::from_vec(b"hello world".to_vec());
    assert_eq!(k.slice(2, 5).as_slice(), b"llo");
    let tail = k.split_off(5);
    assert_eq!(k.as_slice(), b"hello");
    assert_eq!(tail.as_slice(), b" world");

    let mut k2 = Key::from_vec(b"hello world".to_vec());
    let head = k2.split_to(5);
    assert_eq!(head.as_slice(), b"hello");
    assert_eq!(k2.as_slice(), b" world");

    let mut k3 = Key::from_vec(b"hello".to_vec());
    k3.truncate(2);
    assert_eq!(k3.as_slice(), b"he");
    k3.truncate(100);
    assert_eq!(k3.as_slice(), b"he");
}

#[test]
fn key_constructors() {
    assert!(Key::new().is_empty());
    assert!(Key::default().is_empty());
    let k = Key::from_bytes(bytes::Bytes::from(b"buf".to_vec()));
    assert_eq!(k.as_slice(), b"buf");
    let kr = k.as_key_ref();
    assert_eq!(kr.len(), 3);
    assert!(!kr.is_empty());
    assert_eq!(kr.to_key().as_slice(), b"buf");
    assert_eq!(KeyRef::new(b"xy").as_slice(), b"xy");
}

#[test]
fn prefix_suffix_utilities() {
    let a = Key::from_with_timestamp(b"apple".to_vec(), 3);
    let b = Key::from_with_timestamp(b"apply".to_vec(), 8);
    assert_eq!(longest_prefix(&a, b.clone()), b"appl");
    assert_eq!(longest_suffix(&a, Key::from_with_timestamp(b"pineapple".to_vec(), 1)), b"apple");
    assert!(has_prefix(&a, Key::copy_from_slice(b"app")));
    assert!(!has_prefix(&a, Key::copy_from_slice(b"apply")));
    assert!(has_suffix(&a, Key::copy_from_slice(b"ple")));
    assert!(!has_suffix(&a, Key::copy_from_slice(b"ply")));
}

#[test]
fn every_key_has_its_user_key_as_prefix() {
    let keys: Vec<Key> = vec![
        Key::new(),
        Key::copy_from_slice(b"short"),
        Key::copy_from_slice(&[9, 9, 9, 9, 9, 9, 9, 9]),
        Key::from_with_timestamp(b"regular".to_vec(), 12345),
    ];
    for a in keys.iter() {
        let user: Vec<u8> = a.parse_key().to_vec();
        assert!(has_prefix(a, user.clone()));
        assert_eq!(longest_prefix(a, a.clone()), a.parse_key());
        assert_eq!(longest_prefix(a, user), a.parse_key());
    }
}

#[test]
fn key_mut_builds_and_freezes() {
    let mut m = KeyMut::with_capacity(16);
    assert!(m.is_empty());
    m.put_slice(b"user");
    assert_eq!(m.len(), 4);
    assert_eq!(m.as_slice(), b"user");
    let m = m.with_timestamp(5);
    // the builder stores the complemented timestamp, like Key::with_timestamp
    let mut expected = b"user".to_vec();
    expected.extend_from_slice(&(u64::MAX - 5).to_be_bytes());
    assert_eq!(m.as_slice(), expected.as_slice());
    assert_eq!(m.parse_timestamp(), 5);
    let frozen = m.freeze();
    assert_eq!(frozen.as_slice(), expected.as_slice());
    assert_eq!(frozen.parse_timestamp(), 5);
    assert_eq!(
        frozen.as_slice(),
        Key::from_with_timestamp(b"user".to_vec(), 5).as_slice()
    );
}

#[test]
fn key_mut_set_timestamp_patches_in_place() {
    let mut m = KeyMut::new();
    m.put_slice(b"user");
    m.set_timestamp(1);
    let mut expected = b"user".to_vec();
    expected.extend_from_slice(&(u64::MAX - 1).to_be_bytes());
    assert_eq!(m.as_slice(), expected.as_slice());
    assert_eq!(m.parse_timestamp(), 1);

    // patching again overwrites the previous suffix instead of growing
    m.set_timestamp(2);
    let mut expected2 = b"user".to_vec();
    expected2.extend_from_slice(&(u64::MAX - 2).to_be_bytes());
    assert_eq!(m.as_slice(), expected2.as_slice());
    assert_eq!(m.parse_timestamp(), 2);

    // on a key shorter than the suffix, the timestamp is appended
    let mut short = KeyMut::new();
    short.put_slice(b"ab");
    short.set_timestamp(3);
    let mut expected3 = b"ab".to_vec();
    expected3.extend_from_slice(&(u64::MAX - 3).to_be_bytes());
    assert_eq!(short.as_slice(), expected3.as_slice());
    assert_eq!(short.parse_timestamp(), 3);
    assert_eq!(short.clone().as_slice(), short.as_slice());
}

#[test]
fn key_ext_over_plain_buffers() {
    let v: Vec<u8> = Key::from_with_timestamp(b"plain".to_vec(), 4).as_slice().to_vec();
    assert_eq!(v.parse_key(), b"plain");
    assert_eq!(v.parse_timestamp(), 4);
    let b = bytes::Bytes::from(v.clone());
    assert_eq!(b.parse_key(), b"plain");
    assert!(same_key(v, b));
}
