//! Tests of the dynamic value model: accessors, conversions in both
//! directions, the ordered dictionary, and the transaction envelope.
use power::address::Address;
use power::convert::from_value;
use power::de::deserialize;
use power::dict::Dict;
use power::ser::serialize;
use power::types::{balance_from_value, Amount, PayloadItem, Purpose, Tx, TxKind};
use power::value::{Integer, Utf8String, Value};

#[test]
fn integer_predicates() {
    let small = Integer::of_u64(42);
    assert!(small.is_i64());
    assert!(small.is_u64());
    assert_eq!(small.as_i64(), Some(42));
    assert_eq!(small.as_u64(), Some(42));
    let neg = Integer::of_i64(-42);
    assert!(neg.is_i64());
    assert!(!neg.is_u64());
    assert_eq!(neg.as_i64(), Some(-42));
    assert_eq!(neg.as_u64(), Some((-42i64) as u64));
    let big = Integer::of_u64(u64::MAX);
    assert!(!big.is_i64());
    assert!(big.is_u64());
    assert_eq!(big.as_i64(), Some(-1));
}

#[test]
fn value_accessors() {
    assert!(Value::Nil.is_nil());
    assert!(Value::Boolean(true).is_bool());
    assert_eq!(Value::Boolean(true).as_bool(), Some(true));
    assert_eq!(Value::Nil.as_bool(), None);
    let n = Value::from(42u8);
    assert!(n.is_number() && n.is_i64() && n.is_u64());
    assert_eq!(n.as_i64(), Some(42));
    assert_eq!(n.as_u64(), Some(42));
    assert_eq!(Value::from(-42i8).as_u64(), Some((-42i64) as u64));
    let s = Value::from("le message");
    assert!(s.is_str());
    assert_eq!(s.as_str(), Some("le message"));
    assert_eq!(Value::Boolean(true).as_str(), None);
    let b = Value::Binary(vec![1, 2, 3, 4, 5]);
    assert!(b.is_bin());
    assert_eq!(b.as_slice(), Some(&[1u8, 2, 3, 4, 5][..]));
    assert_eq!(s.as_slice(), Some(&b"le message"[..]));
    let a = Value::Array(vec![Value::Nil, Value::Boolean(true)]);
    assert!(a.is_array());
    assert_eq!(a.as_array(), Some(&vec![Value::Nil, Value::Boolean(true)]));
    assert_eq!(Value::Nil.as_array(), None);
    let m = Value::Mapping(vec![(Value::Nil, Value::Boolean(true))]);
    assert!(m.is_map());
    assert_eq!(m.as_map(), Some(&vec![(Value::Nil, Value::Boolean(true))]));
    let e = Value::Ext(42, vec![1, 2, 3, 4, 5]);
    assert!(e.is_ext());
    assert_eq!(e.as_ext(), Some((42, &[1u8, 2, 3, 4, 5][..])));
    assert_eq!(a.get(1), Some(&Value::Boolean(true)));
    assert_eq!(a.get(2), None);
}

#[test]
fn utf8_string_accessors() {
    let s = Utf8String::from("abc");
    assert!(s.is_str());
    assert!(!s.is_err());
    assert_eq!(s.as_str(), Some("abc"));
    assert!(s.as_err().is_none());
    assert_eq!(s.as_bytes(), b"abc");
    let r = s.as_ref();
    assert_eq!(r.as_str(), Some("abc"));
    assert_eq!(r.as_bytes(), b"abc");
    assert_eq!(r.into_bytes(), b"abc".to_vec());
    assert_eq!(s.clone().into_str(), Some("abc".to_string()));
    assert_eq!(s.into_bytes(), b"abc".to_vec());
    let owned: Utf8String = Utf8String::from("xy").as_ref().into();
    assert_eq!(owned.as_str(), Some("xy"));
}

#[test]
fn conversions_to_native() {
    assert_eq!(from_value::<u64>(&Value::from(9u8)), Some(9));
    assert_eq!(from_value::<u64>(&Value::from("no")), None);
    assert_eq!(from_value::<i64>(&Value::from(-9i8)), Some(-9));
    assert_eq!(from_value::<bool>(&Value::Boolean(true)), Some(true));
    assert_eq!(from_value::<bool>(&Value::Nil), None);
    assert_eq!(from_value::<String>(&Value::from("hi")), Some("hi".to_string()));
    assert_eq!(from_value::<String>(&Value::from(3u8)), None);
    assert_eq!(from_value::<Vec<u8>>(&Value::Binary(vec![1, 2])), Some(vec![1, 2]));
    let arr = Value::Array(vec![Value::from(1u8), Value::from(2u8)]);
    assert_eq!(from_value::<Vec<u64>>(&arr), Some(vec![1, 2]));
    let bad = Value::Array(vec![Value::from(1u8), Value::from("x")]);
    assert_eq!(from_value::<Vec<u64>>(&bad), None);
    assert_eq!(from_value::<Value>(&Value::Nil), Some(Value::Nil));
    assert_eq!(from_value::<()>(&Value::from(1u8)), Some(()));
    let pair = Value::Array(vec![Value::from(1u8), Value::from("a")]);
    assert_eq!(from_value::<(u64, String)>(&pair), Some((1, "a".to_string())));
    let triple = Value::Array(vec![Value::from(1u8), Value::from("a"), Value::Boolean(true)]);
    assert_eq!(from_value::<(u64, String, bool)>(&triple), Some((1, "a".to_string(), true)));
    let short = Value::Array(vec![Value::from(1u8)]);
    assert_eq!(from_value::<(u64, String)>(&short), None);
}

#[test]
fn dict_sorts_and_replaces() {
    let mut d = Dict::new();
    d.insert("two".to_string(), Value::from(2u8));
    d.insert("one".to_string(), Value::from(1u8));
    d.insert("three".to_string(), Value::from(3u8));
    assert_eq!(d.len(), 3);
    let keys: Vec<&str> = d.entries().iter().map(|p| p.0.as_str()).collect();
    assert_eq!(keys, vec!["one", "three", "two"]);
    assert_eq!(d.get("one"), Some(&Value::from(1u8)));
    assert_eq!(d.get("four"), None);
    d.insert("one".to_string(), Value::from(11u8));
    assert_eq!(d.len(), 3);
    assert_eq!(d.get("one"), Some(&Value::from(11u8)));
}

#[test]
fn dict_round_trip_through_value() {
    let mut d = Dict::new();
    d.insert("b".to_string(), Value::from(2u8));
    d.insert("a".to_string(), Value::from(1u8));
    let v = Value::from(d);
    let bytes = serialize(&v);
    let back = deserialize(&bytes).unwrap();
    let d2: Dict = from_value(&back).unwrap();
    assert_eq!(d2.len(), 2);
    assert_eq!(d2.get("a"), Some(&Value::from(1u8)));
    assert_eq!(d2.get("b"), Some(&Value::from(2u8)));
    // a non-text key does not convert
    let bad = Value::Mapping(vec![(Value::from(1u8), Value::Nil)]);
    assert!(from_value::<Dict>(&bad).is_none());
}

#[test]
fn tx_kind_codes() {
    assert_eq!(serialize(&Value::from(TxKind::Generic)), &[0x10]);
    assert_eq!(serialize(&Value::from(TxKind::Notify)), &[0x17]);
    assert_eq!(from_value::<TxKind>(&Value::from(16u8)), Some(TxKind::Generic));
    assert_eq!(from_value::<TxKind>(&Value::from(23u8)), Some(TxKind::Notify));
    assert_eq!(from_value::<TxKind>(&Value::from(24u8)), None);
    assert_eq!(from_value::<TxKind>(&Value::from(15u8)), None);
    assert_eq!(from_value::<TxKind>(&Value::from(-17i8)), None);
    assert_eq!(from_value::<TxKind>(&Value::from("x")), None);
}

#[test]
fn purpose_codes() {
    assert_eq!(serialize(&Value::from(Purpose::Transfer)), &[0x00]);
    assert_eq!(serialize(&Value::from(Purpose::Gas)), &[0x03]);
    assert_eq!(from_value::<Purpose>(&Value::from(0u8)), Some(Purpose::Transfer));
    assert_eq!(from_value::<Purpose>(&Value::from(3u8)), Some(Purpose::Gas));
    assert_eq!(from_value::<Purpose>(&Value::from(4u8)), None);
}

#[test]
fn payload_item_round_trip() {
    let item = PayloadItem {
        purpose: Purpose::SrcFee,
        amount: Amount { currency: b"TKN".to_vec(), amount: 500 },
    };
    let v = Value::from(&item);
    let back: PayloadItem = from_value(&v).unwrap();
    assert!(matches!(back.purpose, Purpose::SrcFee));
    assert_eq!(back.amount.currency, b"TKN".to_vec());
    assert_eq!(back.amount.amount, 500);
    // a text currency is accepted as its bytes
    let textual = Value::Array(vec![Value::from(0u8), Value::from("TKN"), Value::from(7u8)]);
    let p: PayloadItem = from_value(&textual).unwrap();
    assert_eq!(p.amount.currency, b"TKN".to_vec());
    // a bad purpose is a mismatch, not an abort
    let bad = Value::Array(vec![Value::from(9u8), Value::from("TKN"), Value::from(7u8)]);
    assert!(from_value::<PayloadItem>(&bad).is_none());
}

#[test]
fn tx_from_value_reads_fields() {
    let from = Address::from_slice(&[0x80, 1, 2, 3, 4, 5, 6, 7]);
    let to = Address::from_slice(&[0x80, 9, 9, 9, 9, 9, 9, 9]);
    let item = PayloadItem {
        purpose: Purpose::Transfer,
        amount: Amount { currency: b"X".to_vec(), amount: 1 },
    };
    let v = Value::Mapping(vec![
        (Value::from("k"), Value::from(16u8)),
        (Value::from("f"), Value::from(from)),
        (Value::from("to"), Value::from(to)),
        (Value::from("p"), Value::Array(vec![Value::from(&item)])),
        (Value::from("t"), Value::from(1234u32)),
    ]);
    let tx: Tx = from_value(&v).unwrap();
    assert!(matches!(tx.kind, TxKind::Generic));
    assert_eq!(tx.from, from);
    assert_eq!(tx.to, Some(to));
    assert_eq!(tx.payload.len(), 1);
    assert_eq!(tx.timestamp, 1234);
    assert_eq!(tx.extradata.len(), 0);
    // a missing kind or timestamp is a mismatch
    let missing = Value::Mapping(vec![(Value::from("f"), Value::from(from))]);
    assert!(from_value::<Tx>(&missing).is_none());
}

#[test]
fn balance_reads_entries() {
    let v = Value::Mapping(vec![
        (Value::Binary(b"AAA".to_vec()), Value::from(7u8)),
        (Value::from("BBB"), Value::from(9u64)),
    ]);
    let amounts = balance_from_value(&v).unwrap();
    assert_eq!(amounts.len(), 2);
    assert_eq!(amounts[0].currency, b"AAA".to_vec());
    assert_eq!(amounts[0].amount, 7);
    assert_eq!(amounts[1].currency, b"BBB".to_vec());
    assert_eq!(amounts[1].amount, 9);
    // not a map: no amounts at all
    assert_eq!(balance_from_value(&Value::Nil).unwrap().len(), 0);
    // a malformed entry refuses the whole balance
    let bad = Value::Mapping(vec![(Value::Nil, Value::from(1u8))]);
    assert!(balance_from_value(&bad).is_none());
}

#[test]
fn address_from_value_forms() {
    let a = Address::from_slice(&[1, 2, 3, 4, 5, 6, 7, 8]);
    assert_eq!(from_value::<Address>(&Value::from(a)), Some(a));
    let arr = Value::Array((1u8..=8).map(Value::from).collect());
    assert_eq!(from_value::<Address>(&arr), Some(a));
    let too_short = Value::Binary(vec![1, 2, 3]);
    assert_eq!(from_value::<Address>(&too_short), None);
    let wrong_len = Value::Array(vec![Value::from(1u8)]);
    assert_eq!(from_value::<Address>(&wrong_len), None);
}
