use kvstructs::iterator::Iterator;
use kvstructs::{Key, KeyExt, KeyRef, RawKeyPointer, RawValuePointer, SeekFrom, Value, ValueRef};

#[test]
fn test() {
    println!("here");
}

#[test]
fn seek_from_variants() {
    let origin = SeekFrom::Origin;
    let current = SeekFrom::Current;
    assert!(matches!(origin, SeekFrom::Origin));
    assert!(matches!(current, SeekFrom::Current));
}

#[test]
fn raw_key_pointer_reads_range() {
    let arena: Vec<u8> = b"abcdefghij".to_vec();
    let p = RawKeyPointer::new(2, 3);
    assert_eq!(p.offset(), 2);
    assert_eq!(p.len(), 3);
    let kr = p.as_key_ref(arena.as_slice());
    assert_eq!(kr.as_slice(), b"cde");
}

#[test]
fn raw_key_pointer_position_identity() {
    let a = RawKeyPointer::new(4, 2);
    let b = RawKeyPointer::new(4, 2);
    let c = RawKeyPointer::new(5, 2);
    assert_eq!(a, b);
    assert_ne!(a, c);
}

#[test]
fn raw_value_pointer_parses_encoding() {
    // meta = 7, user_meta = 9, expires_at = 300 (varint [0xac, 0x02]),
    // payload = "hi", preceded and followed by unrelated arena bytes.
    let mut arena: Vec<u8> = vec![0xee, 0xee];
    let offset = arena.len();
    let encoded: Vec<u8> = vec![7, 9, 0xac, 0x02, b'h', b'i'];
    arena.extend_from_slice(&encoded);
    arena.push(0xff);
    let p = RawValuePointer::new(arena.as_slice(), offset, encoded.len() as u32);
    let vr = p.as_value_ref(arena.as_slice());
    assert_eq!(vr.meta, 7);
    assert_eq!(vr.user_meta, 9);
    assert_eq!(vr.expires_at, 300);
    assert_eq!(vr.version, 0);
    assert_eq!(vr.val, b"hi");
}

#[test]
fn raw_value_pointer_version() {
    let arena: Vec<u8> = vec![1, 2, 0, b'x'];
    let mut p = RawValuePointer::new(arena.as_slice(), 0, 4);
    assert_eq!(p.get_version(), 0);
    p.set_version(42);
    assert_eq!(p.get_version(), 42);
    let vr = p.as_value_ref(arena.as_slice());
    assert_eq!(vr.get_version(), 42);
    assert_eq!(vr.val, b"x");
}

/// A minimal in-memory cursor implementing the abstract iterator contract.
struct VecCursor {
    entries: Vec<(Vec<u8>, Value)>,
    pos: usize,
}

impl kvstructs::iterator::Iterator for VecCursor {
    fn next(&mut self) {
        if self.pos < self.entries.len() {
            self.pos += 1;
        }
    }

    fn rewind(&mut self) {
        self.pos = 0;
    }

    fn seek<K: KeyExt>(&mut self, key: K) {
        self.pos = self.entries.len();
        for i in 0..self.entries.len() {
            let c = kvstructs::compare_key(
                KeyRef::new(self.entries[i].0.as_slice()),
                KeyRef::new(key.as_bytes()),
            );
            if c != std::cmp::Ordering::Less {
                self.pos = i;
                break;
            }
        }
    }

    fn entry(&self) -> Option<(KeyRef<'_>, ValueRef<'_>)> {
        if self.pos < self.entries.len() {
            let (k, v) = &self.entries[self.pos];
            Some((KeyRef::new(k.as_slice()), v.as_value_ref()))
        } else {
            None
        }
    }

    fn key(&self) -> Option<KeyRef<'_>> {
        self.entry().map(|(k, _)| k)
    }

    fn val(&self) -> Option<ValueRef<'_>> {
        self.entry().map(|(_, v)| v)
    }

    fn valid(&self) -> bool {
        self.pos < self.entries.len()
    }

    fn size_hint(&self) -> (usize, Option<usize>) {
        let rest = self.entries.len() - self.pos;
        (rest, Some(rest))
    }
}

#[test]
fn vec_cursor_follows_iterator_contract() {
    let k1 = Key::from_with_timestamp(b"alpha".to_vec(), 9).as_slice().to_vec();
    let k2 = Key::from_with_timestamp(b"beta".to_vec(), 9).as_slice().to_vec();
    let mut cursor = VecCursor {
        entries: vec![
            (k1.clone(), Value::from_vec(b"one".to_vec())),
            (k2.clone(), Value::from_vec(b"two".to_vec())),
        ],
        pos: 0,
    };
    assert!(cursor.valid());
    assert_eq!(cursor.key().unwrap().as_slice(), k1.as_slice());
    assert_eq!(cursor.val().unwrap().val, b"one");
    assert_eq!(cursor.count(), 2);

    cursor.next();
    assert!(cursor.valid());
    assert_eq!(cursor.key().unwrap().as_slice(), k2.as_slice());
    cursor.next();
    assert!(!cursor.valid());
    assert!(cursor.entry().is_none());

    cursor.rewind();
    assert!(cursor.valid());
    assert_eq!(cursor.key().unwrap().as_slice(), k1.as_slice());

    // seek lands on the first key >= the probe in compare_key order
    cursor.seek(Key::from_with_timestamp(b"b".to_vec(), 100));
    assert!(cursor.valid());
    assert_eq!(cursor.key().unwrap().as_slice(), k2.as_slice());

    cursor.seek(Key::from_with_timestamp(b"zzz".to_vec(), 100));
    assert!(!cursor.valid());
}
