//! What a message carries: a structured payload, which travels as a JSON
//! object, or a plain string, with which a device reports an error.
use vstd::prelude::*;
use vstd::utf8::decode_utf8;
use vstd::utf8::valid_utf8;
use std::collections::HashMap;

verus! {

/// A JSON value of any shape: what a data point holds.
#[verifier::external_type_specification]
#[verifier::external_body]
pub struct ExJsonValue(serde_json::Value);

/// A payload sent to a device or received from one.
#[derive(Debug, Clone, PartialEq)]
pub enum Payload {
    Struct(PayloadStruct),
    String(String),
}

/// A structured payload. On the wire it is a JSON object with the fields
/// `devId`, `gwId`, `uid`, `t` and `dps`, of which `gwId`, `uid` and `t` are
/// left out where they are absent. `dps` holds the data points, which differ
/// from device to device.
#[derive(Debug, Clone, PartialEq)]
pub struct PayloadStruct {
    pub dev_id: String,
    pub gw_id: Option<String>,
    pub uid: Option<String>,
    pub t: Option<u32>,
    pub dps: HashMap<String, serde_json::Value>,
}

/// The text that stands for a payload which is neither JSON nor UTF-8.
pub const PAYLOAD_INVALID: &'static str = "Payload invalid";

/// The text that `bytes` are read as: what they are the UTF-8 of, or
/// [`PAYLOAD_INVALID`].
pub open spec fn text_of(bytes: Seq<u8>) -> Seq<char> {
    if valid_utf8(bytes) {
        decode_utf8(bytes)
    } else {
        PAYLOAD_INVALID@
    }
}

/// Calls `String::from_utf8` on a copy of the bytes. Trusted: it succeeds
/// exactly where the bytes are valid UTF-8, and then gives the text that they
/// encode.
#[verifier::external_body]
fn utf8_text(bytes: &[u8]) -> (text: Option<String>)
    ensures
        match text {
            Some(text) => valid_utf8(bytes@) && text@ == decode_utf8(bytes@),
            None => !valid_utf8(bytes@),
        },
{
    String::from_utf8(bytes.to_vec()).ok()
}

impl Payload {
    /// A structured payload of these fields.
    pub fn new(
        dev_id: String,
        gw_id: Option<String>,
        uid: Option<String>,
        t: Option<u32>,
        dps: HashMap<String, serde_json::Value>,
    ) -> (payload: Payload)
        ensures
            payload == Payload::Struct(PayloadStruct { dev_id, gw_id, uid, t, dps }),
    {
        Payload::Struct(PayloadStruct { dev_id, gw_id, uid, t, dps })
    }

    /// The payload that received bytes stand for. `structured` is what the
    /// bytes hold as a JSON object, where they are one; where they are none,
    /// the payload is their text.
    pub fn from_decoded(bytes: &[u8], structured: Option<PayloadStruct>) -> (payload: Payload)
        ensures
            match structured {
                Some(fields) => payload == Payload::Struct(fields),
                None => payload matches Payload::String(text) && text@ == text_of(bytes@),
            },
    {
        match structured {
            Some(fields) => Payload::Struct(fields),
            None => match utf8_text(bytes) {
                Some(text) => Payload::String(text),
                None => Payload::String(PAYLOAD_INVALID.to_owned()),
            },
        }
    }
}

/// The last five characters of `text`; all of it where it has no more.
pub open spec fn tail_of(text: Seq<char>) -> Seq<char> {
    if text.len() > 5 {
        text.subrange(text.len() - 5, text.len() as int)
    } else {
        text
    }
}

/// An identifier as it is shown in a log: three dots and its last five
/// characters.
pub open spec fn scrambled(text: Seq<char>) -> Seq<char> {
    "..."@ + tail_of(text)
}

/// Values that can be shown with their identifiers cut down to the last few
/// characters.
pub trait Scramble: Sized {
    /// The value with its identifiers cut down.
    fn scramble(&self) -> Self;

    /// The last five characters of `text`.
    fn scramble_str(text: &str) -> (tail: &str)
        ensures
            tail@ == tail_of(text@),
    {
        let n = text.unicode_len();
        if n > 5 {
            text.substring_char(n - 5, n)
        } else {
            text
        }
    }
}

impl Scramble for PayloadStruct {
    /// The payload with the device and the gateway shown as three dots and
    /// the last five characters of their identifiers.
    fn scramble(&self) -> (shown: PayloadStruct)
        ensures
            shown.dev_id@ == scrambled(self.dev_id@),
            match self.gw_id {
                Some(gw_id) => shown.gw_id matches Some(s) && s@ == scrambled(gw_id@),
                None => shown.gw_id is None,
            },
            shown.uid == self.uid,
            shown.t == self.t,
            shown.dps@ == self.dps@,
    {
        let dev_id = "...".to_owned().concat(Self::scramble_str(self.dev_id.as_str()));
        let gw_id = match &self.gw_id {
            Some(gw_id) => Some("...".to_owned().concat(Self::scramble_str(gw_id.as_str()))),
            None => None,
        };
        let uid = match &self.uid {
            Some(uid) => Some(uid.clone()),
            None => None,
        };
        PayloadStruct { dev_id, gw_id, uid, t: self.t, dps: self.dps.clone() }
    }
}

} // verus!
