use rust_udcn::layout::{
    CS_KEY_SIZE, CS_VALUE_SIZE, FIB_KEY_SIZE, FIB_VALUE_SIZE, PIT_KEY_SIZE, PIT_VALUE_SIZE,
};
use rust_udcn::types::{CsKey, CsValue, FaceId, FibKey, FibValue, PitKey, PitValue};

#[test]
fn pit_key_layout() {
    let key = PitKey {
        name_hash: 0x01020304,
        name_len: 2,
        nonce: 0xa0b0c0d0,
    };
    let bytes = key.to_bytes();
    assert_eq!(
        bytes,
        vec![0x04, 0x03, 0x02, 0x01, 0x02, 0, 0, 0, 0xd0, 0xc0, 0xb0, 0xa0]
    );
    assert_eq!(bytes.len(), PIT_KEY_SIZE);
    assert_eq!(PitKey::from_bytes(&bytes), Some(key));
    assert_eq!(PitKey::from_bytes(&bytes[..11]), None);
    let mut padded = bytes.clone();
    padded[5] = 0xff;
    assert_eq!(PitKey::from_bytes(&padded), Some(key));
}

#[test]
fn pit_value_layout() {
    let value = PitValue {
        face_id: FaceId(0x1122),
        timestamp: 0x0102030405060708,
        lifetime_ms: 4000,
        name_component_count: 3,
    };
    let bytes = value.to_bytes();
    assert_eq!(
        bytes,
        vec![
            0x22, 0x11, 0, 0, 0, 0, 0, 0, 0x08, 0x07, 0x06, 0x05, 0x04, 0x03, 0x02, 0x01, 0xa0,
            0x0f, 0, 0, 3, 0, 0, 0
        ]
    );
    assert_eq!(bytes.len(), PIT_VALUE_SIZE);
    assert_eq!(PitValue::from_bytes(&bytes), Some(value));
    assert_eq!(PitValue::from_bytes(&[]), None);
}

#[test]
fn fib_record_layout() {
    let key = FibKey {
        prefix_hash: 0xdeadbeef,
        prefix_len: 16,
    };
    assert_eq!(key.to_bytes(), vec![0xef, 0xbe, 0xad, 0xde, 16, 0, 0, 0]);
    assert_eq!(key.to_bytes().len(), FIB_KEY_SIZE);
    assert_eq!(FibKey::from_bytes(&key.to_bytes()), Some(key));
    let value = FibValue {
        face_id: FaceId(258),
        cost: 20,
    };
    assert_eq!(value.to_bytes(), vec![2, 1, 20, 0]);
    assert_eq!(value.to_bytes().len(), FIB_VALUE_SIZE);
    assert_eq!(FibValue::from_bytes(&value.to_bytes()), Some(value));
    assert_eq!(FibValue::from_bytes(&[1, 2, 3]), None);
    assert_eq!(FibKey::from_bytes(&[0; 9]), None);
}

#[test]
fn cs_record_layout() {
    let key = CsKey {
        name_hash: 1,
        name_len: 255,
    };
    assert_eq!(key.to_bytes(), vec![1, 0, 0, 0, 255, 0, 0, 0]);
    assert_eq!(key.to_bytes().len(), CS_KEY_SIZE);
    assert_eq!(CsKey::from_bytes(&key.to_bytes()), Some(key));
    let value = CsValue {
        content_hash: u64::MAX,
        timestamp: 1,
        content_size: 0x01000000,
        ttl_ms: 60000,
    };
    let bytes = value.to_bytes();
    assert_eq!(
        bytes,
        vec![
            0xff, 0xff, 0xff, 0xff, 0xff, 0xff, 0xff, 0xff, 1, 0, 0, 0, 0, 0, 0, 0, 0, 0, 0, 1,
            0x60, 0xea, 0, 0
        ]
    );
    assert_eq!(bytes.len(), CS_VALUE_SIZE);
    assert_eq!(CsValue::from_bytes(&bytes), Some(value));
    assert_eq!(CsValue::from_bytes(&bytes[1..]), None);
}
