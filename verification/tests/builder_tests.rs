//! Tests of the transaction builder, the one-call transaction assembly,
//! and the form description builder.
use power::address::Address;
use power::dict::Dict;
use power::emitter::{emit_tx, TxEmitter};
use power::form::Form;
use power::types::{Amount, PayloadItem, Purpose, TxKind};
use power::value::Value;

#[test]
fn emitter_assembles_pairs() {
    let to = Address::from_slice(&[0x80, 0, 0, 0, 0, 0, 0, 1]);
    let item = PayloadItem {
        purpose: Purpose::Transfer,
        amount: Amount { currency: b"TKN".to_vec(), amount: 9 },
    };
    let pairs = TxEmitter::new(TxKind::Generic)
        .to(to)
        .payload(item)
        .not_before(77)
        .extra("note", Value::from("hello"))
        .emit();
    assert_eq!(pairs.len(), 5);
    assert_eq!(pairs[0].0, Value::from("k"));
    assert_eq!(pairs[0].1, Value::from(16u8));
    assert_eq!(pairs[1].0, Value::from("to"));
    assert_eq!(pairs[1].1, Value::from(to));
    assert_eq!(pairs[2].0, Value::from("nb"));
    assert_eq!(pairs[2].1, Value::from(77u8));
    assert_eq!(pairs[3].0, Value::from("p"));
    assert_eq!(pairs[4].0, Value::from("e"));
    assert_eq!(
        pairs[4].1,
        Value::Mapping(vec![(Value::from("note"), Value::from("hello"))])
    );
}

#[test]
fn emitter_notifications() {
    let pairs = TxEmitter::new(TxKind::Notify)
        .notify_url_binary("https://example.test/hook", vec![1, 2, 3])
        .notify_url_json("https://example.test/json", "{}")
        .emit();
    assert_eq!(pairs.len(), 3);
    assert_eq!(pairs[2].0, Value::from("ev"));
    match &pairs[2].1 {
        Value::Array(notes) => {
            assert_eq!(notes.len(), 2);
            match &notes[0] {
                Value::Mapping(fields) => {
                    assert_eq!(fields[0].0, Value::from("u"));
                    assert_eq!(fields[1].1, Value::from("application/octet-stream"));
                    assert_eq!(fields[2].1, Value::Binary(vec![1, 2, 3]));
                }
                _ => panic!("expected a map"),
            }
            match &notes[1] {
                Value::Mapping(fields) => {
                    assert_eq!(fields[1].1, Value::from("application/json"));
                    assert_eq!(fields[2].1, Value::from("{}"));
                }
                _ => panic!("expected a map"),
            }
        }
        _ => panic!("expected an array"),
    }
}

#[test]
fn emit_tx_one_call() {
    let to = Address::from_slice(&[0x80, 0, 0, 0, 0, 0, 0, 2]);
    let mut extra = Dict::new();
    extra.insert("memo".to_string(), Value::from("x"));
    let pairs = emit_tx(
        TxKind::Deploy,
        Some(to),
        Some(vec![]),
        Some(("run", vec![Value::from(1u8)])),
        Some(extra),
    );
    assert_eq!(pairs.len(), 5);
    assert_eq!(pairs[0], (Value::from("k"), Value::from(18u8)));
    assert_eq!(pairs[1], (Value::from("to"), Value::from(to)));
    assert_eq!(pairs[2], (Value::from("p"), Value::Array(vec![])));
    assert_eq!(
        pairs[3],
        (
            Value::from("c"),
            Value::Array(vec![Value::from("run"), Value::Array(vec![Value::from(1u8)])])
        )
    );
    let none = emit_tx(TxKind::Generic, None, None, None, None);
    assert_eq!(none.len(), 1);
}

#[test]
fn form_collects_fields() {
    let mut form = Form::new();
    form.body("<b>hi</b>");
    form.defaults("{}");
    form.action("OK", "submit", true);
    form.action("Skip", "cancel", false);
    let v = form.to_value();
    match v {
        Value::Array(parts) => {
            assert_eq!(parts[0], Value::from("form"));
            match &parts[1] {
                Value::Mapping(fields) => {
                    assert_eq!(fields.len(), 3);
                    assert_eq!(fields[0], (Value::from("form"), Value::from("<b>hi</b>")));
                    assert_eq!(fields[1], (Value::from("default_values"), Value::from("{}")));
                    assert_eq!(fields[2].0, Value::from("actions"));
                    match &fields[2].1 {
                        Value::Array(actions) => {
                            assert_eq!(actions.len(), 2);
                            assert_eq!(
                                actions[0],
                                Value::Mapping(vec![
                                    (Value::from("action"), Value::from("submit")),
                                    (Value::from("caption"), Value::from("OK")),
                                    (Value::from("noValidate"), Value::Boolean(false)),
                                ])
                            );
                        }
                        _ => panic!("expected an array"),
                    }
                }
                _ => panic!("expected a map"),
            }
        }
        _ => panic!("expected an array"),
    }
}

#[test]
fn form_rho_wraps_and_escapes() {
    let form = Form::with_rho("line one\nline two");
    let v = form.to_value();
    match v {
        Value::Array(parts) => match &parts[1] {
            Value::Mapping(fields) => {
                assert_eq!(
                    fields[0],
                    (
                        Value::from("form"),
                        Value::from(
                            "{ \"type\": \"roTextNode\", \"text\": \"line one\\nline two\" }"
                        )
                    )
                );
            }
            _ => panic!("expected a map"),
        },
        _ => panic!("expected an array"),
    }
}

#[test]
fn form_with_body() {
    let form = Form::with_body("plain");
    let v = form.to_value();
    match v {
        Value::Array(parts) => match &parts[1] {
            Value::Mapping(fields) => {
                assert_eq!(fields.len(), 1);
                assert_eq!(fields[0], (Value::from("form"), Value::from("plain")));
            }
            _ => panic!("expected a map"),
        },
        _ => panic!("expected an array"),
    }
}
