use kvstructs::{
    value_has_prefix, value_has_suffix, value_longest_prefix, value_longest_suffix, Value,
    ValueExt,
};

fn sample_value() -> Value {
    let mut v = Value::from_vec(b"hi".to_vec());
    v.meta = 1;
    v.user_meta = 2;
    v.expires_at = 300;
    v
}

#[test]
fn value_encode_example() {
    let v = sample_value();
    // meta, user meta, varint(300) = [0xac, 0x02], then the payload
    assert_eq!(v.encode(), vec![1, 2, 0xac, 0x02, b'h', b'i']);
}

#[test]
fn value_decode_restores_fields_with_zero_version() {
    let mut v = sample_value();
    v.version = 42;
    let encoded = v.encode();
    let d = Value::decode(encoded.as_slice());
    assert_eq!(d.meta, 1);
    assert_eq!(d.user_meta, 2);
    assert_eq!(d.expires_at, 300);
    assert_eq!(d.version, 0);
    assert_eq!(d.parse_value(), b"hi");
}

#[test]
fn value_round_trip_many() {
    let payloads: Vec<Vec<u8>> = vec![
        Vec::new(),
        b"x".to_vec(),
        b"some longer payload with bytes".to_vec(),
        vec![0xff; 100],
    ];
    let expirations: Vec<u64> = vec![0, 1, 127, 128, 300, u64::MAX];
    for payload in payloads.iter() {
        for &expires_at in expirations.iter() {
            let mut v = Value::from_vec(payload.clone());
            v.meta = 0x5a;
            v.user_meta = 0xa5;
            v.expires_at = expires_at;
            v.version = 7;
            let encoded = v.encode();
            assert_eq!(v.encoded_size() as usize, encoded.len());
            let d = Value::decode(encoded.as_slice());
            assert_eq!(d.meta, v.meta);
            assert_eq!(d.user_meta, v.user_meta);
            assert_eq!(d.expires_at, v.expires_at);
            assert_eq!(d.version, 0);
            assert_eq!(d.parse_value(), payload.as_slice());
        }
    }
}

#[test]
fn value_decode_bytes_shares_buffer() {
    let v = sample_value();
    let encoded = bytes::Bytes::from(v.encode());
    let d = Value::decode_bytes(encoded);
    assert_eq!(d.meta, 1);
    assert_eq!(d.user_meta, 2);
    assert_eq!(d.expires_at, 300);
    assert_eq!(d.version, 0);
    assert_eq!(d.parse_value(), b"hi");
    assert_eq!(d.parse_value_to_bytes(), bytes::Bytes::from(b"hi".to_vec()));
}

#[test]
fn encoded_value_accessors() {
    let v = sample_value();
    let enc = v.to_encoded();
    assert_eq!(enc.len(), v.encode().len());
    assert!(!enc.is_empty());
    assert_eq!(enc.get_meta(), 1);
    assert_eq!(enc.get_user_meta(), 2);
    assert_eq!(enc.get_expires_at(), 300);
    assert_eq!(enc.parse_value(), b"hi");
    let d = enc.decode_value();
    assert_eq!(d.meta, 1);
    assert_eq!(d.user_meta, 2);
    assert_eq!(d.expires_at, 300);
    assert_eq!(d.version, 0);
    assert_eq!(d.parse_value(), b"hi");
    let d2 = enc.clone().decode_value();
    assert_eq!(d2.parse_value(), b"hi");
}

#[test]
fn encoded_size_counts_varint_growth() {
    for &(expires_at, varint_len) in
        [(0u64, 1usize), (127, 1), (128, 2), (16384, 3), (u64::MAX, 10)].iter()
    {
        let mut v = Value::from_vec(b"abc".to_vec());
        v.expires_at = expires_at;
        assert_eq!(v.encoded_size() as usize, 2 + varint_len + 3);
        assert_eq!(v.encode().len(), 2 + varint_len + 3);
    }
}

#[test]
fn value_views_and_clone() {
    let v = sample_value();
    let vr = v.as_value_ref();
    assert_eq!(vr.get_meta(), 1);
    assert_eq!(vr.get_user_meta(), 2);
    assert_eq!(vr.get_expires_at(), 300);
    assert_eq!(vr.get_version(), 0);
    assert_eq!(vr.parse_value(), b"hi");
    let back = vr.to_value();
    assert_eq!(back.parse_value(), b"hi");
    assert_eq!(back.meta, 1);

    let c = v.clone();
    assert_eq!(c.get_meta(), 1);
    assert_eq!(c.parse_value(), b"hi");
    assert_eq!(c.len(), 2);
    assert!(!c.is_empty());
    assert_eq!(c.get_version(), 0);
    assert!(Value::new().is_empty());
    assert!(Value::default().is_empty());
}

#[test]
fn value_equality_operator() {
    let a = sample_value();
    let b = sample_value();
    assert!(a == b);

    let mut c = sample_value();
    c.version = 9;
    assert!(a != c);

    let mut d = sample_value();
    d.value = bytes::Bytes::from(b"ho".to_vec());
    assert!(a != d);

    // a decoded value equals the value it came from once versions agree
    let decoded = Value::decode(a.encode().as_slice());
    assert!(decoded == a);
}

#[test]
fn value_prefix_suffix_utilities() {
    let a = Value::from_vec(b"prefix-body-suffix".to_vec());
    let p = Value::from_vec(b"prefix".to_vec());
    let s = Value::from_vec(b"suffix".to_vec());
    assert!(value_has_prefix(&a, &p));
    assert!(!value_has_prefix(&a, &s));
    assert!(value_has_suffix(&a, &s));
    assert!(!value_has_suffix(&a, &p));
    let b = Value::from_vec(b"prefix-another".to_vec());
    assert_eq!(value_longest_prefix(&a, &b), b"prefix-");
    let c = Value::from_vec(b"other-suffix".to_vec());
    assert_eq!(value_longest_suffix(&a, &c), b"-suffix");
}
