use rust_tuyapi::payload::{Payload, PayloadStruct, Scramble};
use std::collections::HashMap;

#[test]
fn new_payload_is_structured() {
    let mut dps = HashMap::new();
    dps.insert("1".to_string(), serde_json::Value::Bool(true));
    let payload = Payload::new(
        "002004265ccf7fb1b659".to_string(),
        Some("gw".to_string()),
        None,
        Some(1529442366),
        dps.clone(),
    );
    assert_eq!(
        payload,
        Payload::Struct(PayloadStruct {
            dev_id: "002004265ccf7fb1b659".to_string(),
            gw_id: Some("gw".to_string()),
            uid: None,
            t: Some(1529442366),
            dps,
        })
    );
}

#[test]
fn bytes_that_are_no_object_are_their_text() {
    assert_eq!(
        Payload::from_decoded(b"data format error", None),
        Payload::String("data format error".to_string())
    );
    assert_eq!(
        Payload::from_decoded("gr\u{fc}n \u{2713}".as_bytes(), None),
        Payload::String("gr\u{fc}n \u{2713}".to_string())
    );
    assert_eq!(
        Payload::from_decoded(b"", None),
        Payload::String("".to_string())
    );
}

#[test]
fn bytes_that_are_no_text_are_an_invalid_payload() {
    assert_eq!(
        Payload::from_decoded(&[0xff, 0xfe, 0x00], None),
        Payload::String("Payload invalid".to_string())
    );
    assert_eq!(
        Payload::from_decoded(&[b'a', 0xc3], None),
        Payload::String("Payload invalid".to_string())
    );
}

#[test]
fn object_is_the_payload_whatever_the_bytes() {
    let fields = PayloadStruct {
        dev_id: "id".to_string(),
        gw_id: None,
        uid: None,
        t: None,
        dps: HashMap::new(),
    };
    assert_eq!(
        Payload::from_decoded(b"{\"devId\":\"id\",\"dps\":{}}", Some(fields.clone())),
        Payload::Struct(fields)
    );
}

#[test]
fn scramble_str_keeps_the_last_five_characters() {
    assert_eq!(PayloadStruct::scramble_str("002004265ccf7fb1b659"), "1b659");
    assert_eq!(PayloadStruct::scramble_str("123456"), "23456");
    assert_eq!(PayloadStruct::scramble_str("12345"), "12345");
    assert_eq!(PayloadStruct::scramble_str("abc"), "abc");
    assert_eq!(PayloadStruct::scramble_str(""), "");
    assert_eq!(PayloadStruct::scramble_str("\u{e4}\u{f6}\u{fc}\u{df}\u{e9}\u{e8}\u{ea}"), "\u{fc}\u{df}\u{e9}\u{e8}\u{ea}");
}

#[test]
fn scramble_cuts_the_identifiers_down() {
    let mut dps = HashMap::new();
    dps.insert("1".to_string(), serde_json::Value::Bool(false));
    let payload = PayloadStruct {
        dev_id: "002004265ccf7fb1b659".to_string(),
        gw_id: Some("46052834d8f15b92e53b".to_string()),
        uid: Some("user".to_string()),
        t: Some(7),
        dps: dps.clone(),
    };
    assert_eq!(
        payload.scramble(),
        PayloadStruct {
            dev_id: "...1b659".to_string(),
            gw_id: Some("...2e53b".to_string()),
            uid: Some("user".to_string()),
            t: Some(7),
            dps,
        }
    );
    let payload = PayloadStruct {
        dev_id: "ab".to_string(),
        gw_id: None,
        uid: None,
        t: None,
        dps: HashMap::new(),
    };
    assert_eq!(
        payload.scramble(),
        PayloadStruct {
            dev_id: "...ab".to_string(),
            gw_id: None,
            uid: None,
            t: None,
            dps: HashMap::new(),
        }
    );
}
