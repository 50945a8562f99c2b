//! Wire-format tests: the concrete encoding vectors, the size tiers, the
//! optional-value shape, and encode-decode round trips.
use power::de::deserialize;
use power::dict::Dict;
use power::ser::{serialize, Serializer};
use power::value::Value;
use power::Error;

#[test]
fn positive_fixint_test() {
    let v: u8 = 23;
    assert_eq!(serialize(&Value::from(v)), &[0x17]);
}

#[test]
fn negative_fixint_test() {
    let v: i8 = -5;
    assert_eq!(serialize(&Value::from(v)), &[0xfb]);
}

#[test]
fn uint8_test() {
    let v: u8 = 154;
    assert_eq!(serialize(&Value::from(v)), &[0xcc, 0x9a]);
}

#[test]
fn fixstr_test() {
    let s: &str = "Hello World!";
    assert_eq!(
        serialize(&Value::from(s)),
        &[0xac, 0x48, 0x65, 0x6c, 0x6c, 0x6f, 0x20, 0x57, 0x6f, 0x72, 0x6c, 0x64, 0x21]
    );
}

#[test]
fn str8_test() {
    let s: &str = "The quick brown fox jumps over the lazy dog";
    let mut fixture: Vec<u8> = vec![];
    fixture.push(0xd9);
    fixture.push(s.len() as u8);
    fixture.extend_from_slice(s.as_bytes());
    assert_eq!(serialize(&Value::from(s)), fixture);
}

#[test]
fn fixarr_test() {
    let v: Vec<u8> = vec![5, 8, 20, 231];
    let value = Value::Array(v.into_iter().map(Value::from).collect());
    assert_eq!(serialize(&value), &[0x94, 0x05, 0x08, 0x14, 0xcc, 0xe7]);
}

#[test]
fn array16_test() {
    // a sequence of signed integers, each in the signed ladder's first tier
    let v: Vec<isize> = vec![
        -5, 16, 101, -45, 184, 89, 62, -233, -33, 304, 76, 90, 23, 108, 45, -3, 2,
    ];
    let mut ser = Serializer::new();
    ser.output_seq_header(v.len()).unwrap();
    for e in v {
        ser.serialize_signed(e as i64).unwrap();
    }
    assert_eq!(
        ser.output,
        &[
            0xdc, 0x00, 0x11, 0xfb, 0x10, 0x65, 0xd0, 0xd3, 0xcc, 0xb8, 0x59, 0x3e, 0xd1, 0xff,
            0x17, 0xd0, 0xdf, 0xd1, 0x01, 0x30, 0x4c, 0x5a, 0x17, 0x6c, 0x2d, 0xfd, 0x02
        ]
    );
}

#[test]
fn fixmap_test() {
    let mut map = Dict::new();
    map.insert("one".to_string(), Value::from(1usize));
    map.insert("two".to_string(), Value::from(2usize));
    map.insert("three".to_string(), Value::from(3usize));
    assert_eq!(
        serialize(&Value::from(map)),
        &[
            0x83, 0xa3, 0x6f, 0x6e, 0x65, 0x01, 0xa5, 0x74, 0x68, 0x72, 0x65, 0x65, 0x03, 0xa3,
            0x74, 0x77, 0x6f, 0x02
        ]
    );
}

#[test]
fn signed_tier_lengths() {
    // the signed ladder: first tier that covers the value wins
    assert_eq!(serialize(&Value::from(-32i64)).len(), 1);
    assert_eq!(serialize(&Value::from(-33i64)), &[0xd0, 0xdf]);
    assert_eq!(serialize(&Value::from(-128i64)).len(), 2);
    assert_eq!(serialize(&Value::from(-129i64)).len(), 3);
    assert_eq!(serialize(&Value::from(-32768i64)), &[0xd1, 0x80, 0x00]);
    assert_eq!(serialize(&Value::from(-32769i64)).len(), 5);
    assert_eq!(serialize(&Value::from(-0x8000_0000i64)).len(), 5);
    assert_eq!(serialize(&Value::from(-0x8000_0001i64)).len(), 9);
    assert_eq!(
        serialize(&Value::from(i64::MIN)),
        &[0xd3, 0x80, 0x00, 0x00, 0x00, 0x00, 0x00, 0x00, 0x00]
    );
}

#[test]
fn unsigned_tier_lengths() {
    // the unsigned ladder: compact, then 8, 16, 32, 64-bit, never signed
    assert_eq!(serialize(&Value::from(127u64)), &[0x7f]);
    assert_eq!(serialize(&Value::from(128u64)), &[0xcc, 0x80]);
    assert_eq!(serialize(&Value::from(255u64)), &[0xcc, 0xff]);
    assert_eq!(serialize(&Value::from(256u64)), &[0xcd, 0x01, 0x00]);
    assert_eq!(serialize(&Value::from(65535u64)), &[0xcd, 0xff, 0xff]);
    assert_eq!(serialize(&Value::from(65536u64)), &[0xce, 0x00, 0x01, 0x00, 0x00]);
    assert_eq!(
        serialize(&Value::from(0x1_0000_0000u64)),
        &[0xcf, 0x00, 0x00, 0x00, 0x01, 0x00, 0x00, 0x00, 0x00]
    );
    assert_eq!(
        serialize(&Value::from(u64::MAX)),
        &[0xcf, 0xff, 0xff, 0xff, 0xff, 0xff, 0xff, 0xff, 0xff]
    );
}

#[test]
fn optional_shape() {
    // None is a 1-element sequence [false]; Some(x) is [true, x]
    let mut ser = Serializer::new();
    ser.serialize_none().unwrap();
    assert_eq!(ser.output, &[0x91, 0xc2]);
    let mut ser = Serializer::new();
    ser.serialize_some(&Value::from(7u8)).unwrap();
    assert_eq!(ser.output, &[0x92, 0xc3, 0x07]);
}

#[test]
fn char_encodes_as_text() {
    let mut ser = Serializer::new();
    ser.serialize_char('A').unwrap();
    assert_eq!(ser.output, &[0xa1, 0x41]);
    let mut ser = Serializer::new();
    ser.serialize_char('é').unwrap();
    assert_eq!(ser.output, &[0xa2, 0xc3, 0xa9]);
    let mut ser = Serializer::new();
    ser.serialize_char('✓').unwrap();
    assert_eq!(ser.output.len(), 4);
    assert_eq!(deserialize(&ser.output), Some(Value::from("✓")));
}

#[test]
fn length_required() {
    // a sequence or map of unknown length cannot be encoded
    let mut ser = Serializer::new();
    assert_eq!(ser.serialize_seq(None), Err(Error::BadLength));
    assert_eq!(ser.serialize_map(None), Err(Error::BadLength));
    assert_eq!(ser.serialize_seq(Some(0)), Ok(()));
    assert_eq!(ser.output, &[0x90]);
}

#[test]
fn round_trip_scalars() {
    for v in [
        Value::from(0u8),
        Value::from(23u8),
        Value::from(200u8),
        Value::from(-5i8),
        Value::from(-100i8),
        Value::from(40000u16),
        Value::from(-30000i16),
        Value::from(3_000_000_000u32),
        Value::from(-2_000_000_000i32),
        Value::from(u64::MAX),
        Value::from(i64::MIN),
        Value::Boolean(true),
        Value::Boolean(false),
    ] {
        let bytes = serialize(&v);
        assert_eq!(deserialize(&bytes), Some(v));
    }
}

#[test]
fn round_trip_text_binary() {
    for v in [
        Value::from(""),
        Value::from("hi"),
        Value::from("Hello World!"),
        Value::from("naïve — ünïcode ✓"),
        Value::from(&b""[..]),
        Value::from(&b"\x00\x01\xff"[..]),
        Value::from(&[7u8; 300][..]),
    ] {
        let bytes = serialize(&v);
        assert_eq!(deserialize(&bytes), Some(v));
    }
}

#[test]
fn round_trip_nested() {
    let v = Value::Array(vec![
        Value::from(1u8),
        Value::from("two"),
        Value::Array(vec![Value::from(-3i8), Value::from(&b"four"[..])]),
        Value::Mapping(vec![
            (Value::from("k"), Value::from(5u8)),
            (Value::from(6u8), Value::Boolean(false)),
        ]),
    ]);
    let bytes = serialize(&v);
    assert_eq!(deserialize(&bytes), Some(v));
}

#[test]
fn round_trip_long_array() {
    let v = Value::Array((0..1000u64).map(Value::from).collect());
    let bytes = serialize(&v);
    assert_eq!(&bytes[..3], &[0xdc, 0x03, 0xe8]);
    assert_eq!(deserialize(&bytes), Some(v));
}

#[test]
fn map_order_preserved() {
    // pairs keep exactly the order given: no sort, no deduplication
    let v = Value::Mapping(vec![
        (Value::from("zz"), Value::from(1u8)),
        (Value::from("aa"), Value::from(2u8)),
        (Value::from("zz"), Value::from(3u8)),
    ]);
    let bytes = serialize(&v);
    assert_eq!(bytes[0], 0x83);
    let back = deserialize(&bytes).unwrap();
    match back {
        Value::Mapping(pairs) => {
            assert_eq!(pairs.len(), 3);
            assert_eq!(pairs[0].0, Value::from("zz"));
            assert_eq!(pairs[0].1, Value::from(1u8));
            assert_eq!(pairs[1].0, Value::from("aa"));
            assert_eq!(pairs[2].1, Value::from(3u8));
        }
        _ => panic!("expected a map"),
    }
}

#[test]
fn nil_encodes_as_absent_optional() {
    // nil goes to the wire in the shape of an absent optional value
    assert_eq!(serialize(&Value::Nil), &[0x91, 0xc2]);
    let back = deserialize(&[0x91, 0xc2]).unwrap();
    assert_eq!(back, Value::Array(vec![Value::Boolean(false)]));
}

#[test]
fn decode_rejects_malformed() {
    // truncated payloads, unsupported tags, trailing bytes, invalid UTF-8
    assert_eq!(deserialize(&[]), None);
    assert_eq!(deserialize(&[0xcc]), None);
    assert_eq!(deserialize(&[0xcd, 0x01]), None);
    assert_eq!(deserialize(&[0xa3, 0x61]), None);
    assert_eq!(deserialize(&[0xca, 0x00, 0x00, 0x00, 0x00]), None);
    assert_eq!(deserialize(&[0xc1]), None);
    assert_eq!(deserialize(&[0x01, 0x02]), None);
    assert_eq!(deserialize(&[0xa2, 0xff, 0xfe]), None);
}

#[test]
fn decode_nil_true_false() {
    assert_eq!(deserialize(&[0xc0]), Some(Value::Nil));
    assert_eq!(deserialize(&[0xc2]), Some(Value::Boolean(false)));
    assert_eq!(deserialize(&[0xc3]), Some(Value::Boolean(true)));
}

#[test]
fn decode_string_content() {
    // the decoded text holds exactly the payload bytes as a string
    let v = deserialize(&[0xa2, 0x68, 0x69]).unwrap();
    assert_eq!(v.as_str(), Some("hi"));
}
