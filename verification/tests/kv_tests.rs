use parity_scale_codec::Encode;
use subsmt::{H256, SMTKey, SMTValue};

#[test]
fn kv_test_value() {
    let v = SMTValue { nonce: 1, balance: 100000 };
    let v_vec: Vec<u8> = v.encode();
    assert_eq!(Some(v), SMTValue::from_bytes(v_vec.as_slice()));

    let v1 = SMTValue::zero();
    assert_eq!(v1.to_h256(), H256::zero());
}

#[test]
fn value_bytes_match_scale_codec() {
    // A struct of two fields encodes as the fields in order, like a tuple.
    let v = SMTValue { nonce: 7, balance: 123456789012345678901234567890 };
    let reference: Vec<u8> = Encode::encode(&(7u64, 123456789012345678901234567890u128));
    assert_eq!(v.encode(), reference);
}

#[test]
fn key_bytes_match_scale_codec() {
    let k = SMTKey { address: "some-account-address".to_string() };
    let reference: Vec<u8> = Encode::encode(&"some-account-address".to_string());
    assert_eq!(k.encode(), reference);

    let long = "x".repeat(20000);
    let k2 = SMTKey { address: long.clone() };
    let reference2: Vec<u8> = Encode::encode(&long);
    assert_eq!(k2.encode(), reference2);
}

#[test]
fn student_round_trip_and_scale_bytes() {
    let s = subsmt::Student { name: b"hell".to_vec(), score: 42, id: 16777 };
    let bytes = s.encode();
    let back = subsmt::Student::decode(bytes.as_slice()).unwrap();
    assert_eq!(s, back);

    let reference: Vec<u8> = Encode::encode(&(b"hell".to_vec(), 42u8, 16777u16));
    assert_eq!(bytes, reference);
}
