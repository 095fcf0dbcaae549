use kvstructs::{
    binary_uvarint, binary_uvarint_allocate, put_binary_uvarint_to_vec, size_variant,
    u64_big_endian, u64_to_be_vec, MAX_VARINT_LEN64,
};

#[test]
fn varint_round_trip_many() {
    let cases: Vec<u64> = vec![
        0,
        1,
        0x7f,
        0x80,
        300,
        16383,
        16384,
        u32::MAX as u64,
        u64::MAX / 2,
        u64::MAX - 1,
        u64::MAX,
    ];
    for &x in cases.iter() {
        let enc = binary_uvarint_allocate(x);
        assert!(enc.len() <= MAX_VARINT_LEN64);
        assert_eq!(size_variant(x), enc.len());
        let (v, n) = binary_uvarint(enc.as_slice());
        assert_eq!(v, x);
        assert_eq!(n, enc.len());
    }
}

#[test]
fn varint_exact_bytes() {
    assert_eq!(binary_uvarint_allocate(0), vec![0x00]);
    assert_eq!(binary_uvarint_allocate(1), vec![0x01]);
    assert_eq!(binary_uvarint_allocate(0x7f), vec![0x7f]);
    assert_eq!(binary_uvarint_allocate(0x80), vec![0x80, 0x01]);
    assert_eq!(binary_uvarint_allocate(300), vec![0xac, 0x02]);
    assert_eq!(binary_uvarint_allocate(u64::MAX).len(), 10);
}

#[test]
fn varint_decode_ignores_trailing_bytes() {
    let mut buf = binary_uvarint_allocate(300);
    let consumed = buf.len();
    buf.extend_from_slice(b"payload");
    let (v, n) = binary_uvarint(buf.as_slice());
    assert_eq!(v, 300);
    assert_eq!(n, consumed);
}

#[test]
fn varint_insufficient_data() {
    assert_eq!(binary_uvarint(&[]), (0, 0));
    assert_eq!(binary_uvarint(&[0x80]), (0, 0));
    assert_eq!(binary_uvarint(&[0xff, 0xff, 0xff]), (0, 0));
}

#[test]
fn varint_overflow_is_complement_of_length() {
    // ten continuation bytes, terminator at index 10: value needs > 64 bits
    let mut buf: Vec<u8> = vec![0x80; 10];
    buf.push(0x01);
    let (v, n) = binary_uvarint(buf.as_slice());
    assert_eq!(v, 0);
    assert_eq!(n, !11usize);

    // tenth byte terminates but contributes more than the one leftover bit
    let mut buf2: Vec<u8> = vec![0x80; 9];
    buf2.push(0x02);
    let (v2, n2) = binary_uvarint(buf2.as_slice());
    assert_eq!(v2, 0);
    assert_eq!(n2, !10usize);

    // tenth byte of 1 is the largest that still fits: 2^63
    let mut buf3: Vec<u8> = vec![0x80; 9];
    buf3.push(0x01);
    let (v3, n3) = binary_uvarint(buf3.as_slice());
    assert_eq!(v3, 1u64 << 63);
    assert_eq!(n3, 10);
}

#[test]
fn put_varint_appends() {
    let mut buf: Vec<u8> = vec![0xaa, 0xbb];
    put_binary_uvarint_to_vec(&mut buf, 300);
    assert_eq!(buf, vec![0xaa, 0xbb, 0xac, 0x02]);
}

#[test]
fn big_endian_round_trip() {
    assert_eq!(u64_big_endian(&[0, 0, 0, 0, 0, 0, 1, 2]), 258);
    assert_eq!(u64_to_be_vec(258), vec![0, 0, 0, 0, 0, 0, 1, 2]);
    let cases: Vec<u64> = vec![0, 1, 0xdead_beef, u64::MAX];
    for &x in cases.iter() {
        let b = u64_to_be_vec(x);
        assert_eq!(b.len(), 8);
        assert_eq!(u64_big_endian(b.as_slice()), x);
        assert_eq!(b, x.to_be_bytes().to_vec());
    }
}
