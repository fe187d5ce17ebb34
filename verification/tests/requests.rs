use btc_rpc_proxy::client::{GenericRpcMethod, RpcRequest, SingleOrBatchRpcRequest};
use btc_rpc_proxy::error::{Field, Position, Problem, RequestError};
use btc_rpc_proxy::json::{JsonNumber, JsonValue, Span};
use serde::de::{Deserializer, MapAccess, SeqAccess, Visitor};
use serde::Deserialize;
use serde_json::value::RawValue;
use std::fmt;
use std::marker::PhantomData;

// Reading a body into the library's JSON values, with where each value
// stands.

struct Parsed(JsonValue);

impl<'de> Deserialize<'de> for Parsed {
    fn deserialize<D: Deserializer<'de>>(deserializer: D) -> Result<Self, D::Error> {
        struct V;
        impl<'de> Visitor<'de> for V {
            type Value = Parsed;
            fn expecting(&self, f: &mut fmt::Formatter) -> fmt::Result {
                f.write_str("any JSON value")
            }
            fn visit_unit<E>(self) -> Result<Parsed, E> {
                Ok(Parsed(JsonValue::Null))
            }
            fn visit_bool<E>(self, b: bool) -> Result<Parsed, E> {
                Ok(Parsed(JsonValue::Bool(b)))
            }
            fn visit_u64<E>(self, u: u64) -> Result<Parsed, E> {
                Ok(Parsed(JsonValue::Number(JsonNumber::PosInt(u))))
            }
            fn visit_i64<E>(self, i: i64) -> Result<Parsed, E> {
                Ok(Parsed(JsonValue::Number(if i >= 0 { JsonNumber::PosInt(i as u64) } else { JsonNumber::NegInt(i) })))
            }
            fn visit_f64<E>(self, f: f64) -> Result<Parsed, E> {
                let text = serde_json::Number::from_f64(f).map(|n| n.to_string()).unwrap_or_else(|| f.to_string());
                Ok(Parsed(JsonValue::Number(JsonNumber::Float(text))))
            }
            fn visit_str<E>(self, s: &str) -> Result<Parsed, E> {
                Ok(Parsed(JsonValue::String(s.to_owned())))
            }
            fn visit_seq<A: SeqAccess<'de>>(self, mut seq: A) -> Result<Parsed, A::Error> {
                let mut items = Vec::new();
                while let Some(Parsed(item)) = seq.next_element()? {
                    items.push(item);
                }
                Ok(Parsed(JsonValue::Array(items)))
            }
            fn visit_map<A: MapAccess<'de>>(self, mut map: A) -> Result<Parsed, A::Error> {
                let mut members = Vec::new();
                while let Some((key, Parsed(value))) = map.next_entry::<String, Parsed>()? {
                    members.push((key, value));
                }
                Ok(Parsed(JsonValue::Object(members)))
            }
        }
        deserializer.deserialize_any(V)
    }
}

struct KeyForm(bool);

impl<'de> Deserialize<'de> for KeyForm {
    fn deserialize<D: Deserializer<'de>>(deserializer: D) -> Result<Self, D::Error> {
        struct V;
        impl<'de> Visitor<'de> for V {
            type Value = KeyForm;
            fn expecting(&self, f: &mut fmt::Formatter) -> fmt::Result {
                f.write_str("a member name")
            }
            fn visit_borrowed_str<E>(self, _: &'de str) -> Result<KeyForm, E> {
                Ok(KeyForm(true))
            }
            fn visit_str<E>(self, _: &str) -> Result<KeyForm, E> {
                Ok(KeyForm(false))
            }
        }
        deserializer.deserialize_str(V)
    }
}

struct RawMembers<'a>(Vec<(bool, &'a RawValue)>);

impl<'de: 'a, 'a> Deserialize<'de> for RawMembers<'a> {
    fn deserialize<D: Deserializer<'de>>(deserializer: D) -> Result<Self, D::Error> {
        struct V<'a>(PhantomData<&'a ()>);
        impl<'de: 'a, 'a> Visitor<'de> for V<'a> {
            type Value = RawMembers<'a>;
            fn expecting(&self, f: &mut fmt::Formatter) -> fmt::Result {
                f.write_str("an object")
            }
            fn visit_map<A: MapAccess<'de>>(self, mut map: A) -> Result<RawMembers<'a>, A::Error> {
                let mut members = Vec::new();
                while let Some(KeyForm(borrowed)) = map.next_key::<KeyForm>()? {
                    let value: &'a RawValue = map.next_value()?;
                    members.push((borrowed, value));
                }
                Ok(RawMembers(members))
            }
        }
        deserializer.deserialize_map(V(PhantomData))
    }
}

fn span_of(raw: &RawValue, base: usize) -> Span {
    let text = raw.get();
    let start = text.as_ptr() as usize - base;
    let end = start + text.len();
    let mut parts = Vec::new();
    let mut borrowed = Vec::new();
    match text.as_bytes().first() {
        Some(b'[') => {
            if let Ok(items) = serde_json::from_str::<Vec<&RawValue>>(text) {
                parts = items.into_iter().map(|item| span_of(item, base)).collect();
            }
        },
        Some(b'{') => {
            if let Ok(RawMembers(members)) = serde_json::from_str::<RawMembers>(text) {
                for (key_borrowed, value) in members {
                    borrowed.push(key_borrowed);
                    parts.push(span_of(value, base));
                }
            }
        },
        _ => {},
    }
    Span { start, end, parts, borrowed }
}

fn read(body: &str) -> Result<SingleOrBatchRpcRequest, RequestError> {
    let bytes = body.as_bytes();
    let value = match serde_json::from_slice::<Parsed>(bytes) {
        Ok(p) => p.0,
        Err(e) => return Err(RequestError::Json(e.to_string())),
    };
    let raw: &RawValue = serde_json::from_slice(bytes).unwrap();
    let span = span_of(raw, bytes.as_ptr() as usize);
    SingleOrBatchRpcRequest::from_json(value, &span, bytes)
}

fn refusal(body: &str) -> String {
    match read(body) {
        Err(e) => e.message(),
        Ok(other) => panic!("unexpected {:?}", other),
    }
}

// The request reader of the proxy's first form, written against serde by
// hand: a single request read member by member, and the requests of a
// batch read as a struct.

struct Method(String);

impl<'de> Deserialize<'de> for Method {
    fn deserialize<D: Deserializer<'de>>(deserializer: D) -> Result<Self, D::Error> {
        struct V;
        impl<'de> Visitor<'de> for V {
            type Value = Method;
            fn expecting(&self, f: &mut fmt::Formatter) -> fmt::Result {
                f.write_str("tuple struct GenericRpcMethod")
            }
            fn visit_newtype_struct<D: Deserializer<'de>>(self, d: D) -> Result<Method, D::Error> {
                Ok(Method(String::deserialize(d)?))
            }
        }
        deserializer.deserialize_newtype_struct("GenericRpcMethod", V)
    }
}

enum FieldName {
    Id,
    Method,
    Params,
    Other,
}

impl<'de> Deserialize<'de> for FieldName {
    fn deserialize<D: Deserializer<'de>>(deserializer: D) -> Result<Self, D::Error> {
        struct V;
        impl<'de> Visitor<'de> for V {
            type Value = FieldName;
            fn expecting(&self, f: &mut fmt::Formatter) -> fmt::Result {
                f.write_str("field identifier")
            }
            fn visit_str<E>(self, v: &str) -> Result<FieldName, E> {
                Ok(match v {
                    "id" => FieldName::Id,
                    "method" => FieldName::Method,
                    "params" => FieldName::Params,
                    _ => FieldName::Other,
                })
            }
        }
        deserializer.deserialize_identifier(V)
    }
}

#[allow(dead_code)]
struct Request {
    id: Option<serde_json::Value>,
    method: Method,
    params: Vec<serde_json::Value>,
}

impl<'de> Deserialize<'de> for Request {
    fn deserialize<D: Deserializer<'de>>(deserializer: D) -> Result<Self, D::Error> {
        struct V;
        impl<'de> Visitor<'de> for V {
            type Value = Request;
            fn expecting(&self, f: &mut fmt::Formatter) -> fmt::Result {
                f.write_str("struct RpcRequest")
            }
            fn visit_seq<A: SeqAccess<'de>>(self, mut seq: A) -> Result<Request, A::Error> {
                let id = seq.next_element::<Option<serde_json::Value>>()?.unwrap_or_default();
                let method = match seq.next_element::<Method>()? {
                    Some(m) => m,
                    None => return Err(serde::de::Error::invalid_length(1, &"struct RpcRequest with 3 elements")),
                };
                let params = match seq.next_element::<Vec<serde_json::Value>>()? {
                    Some(p) => p,
                    None => return Err(serde::de::Error::invalid_length(2, &"struct RpcRequest with 3 elements")),
                };
                Ok(Request { id, method, params })
            }
            fn visit_map<A: MapAccess<'de>>(self, mut map: A) -> Result<Request, A::Error> {
                let mut id: Option<Option<serde_json::Value>> = None;
                let mut method: Option<Method> = None;
                let mut params: Option<Vec<serde_json::Value>> = None;
                while let Some(key) = map.next_key::<FieldName>()? {
                    match key {
                        FieldName::Id => {
                            if id.is_some() {
                                return Err(serde::de::Error::duplicate_field("id"));
                            }
                            id = Some(map.next_value()?);
                        },
                        FieldName::Method => {
                            if method.is_some() {
                                return Err(serde::de::Error::duplicate_field("method"));
                            }
                            method = Some(map.next_value()?);
                        },
                        FieldName::Params => {
                            if params.is_some() {
                                return Err(serde::de::Error::duplicate_field("params"));
                            }
                            params = Some(map.next_value()?);
                        },
                        FieldName::Other => {
                            let _ = map.next_value::<serde::de::IgnoredAny>()?;
                        },
                    }
                }
                let id = id.unwrap_or_default();
                let method = method.ok_or_else(|| serde::de::Error::missing_field("method"))?;
                let params = params.ok_or_else(|| serde::de::Error::missing_field("params"))?;
                Ok(Request { id, method, params })
            }
        }
        deserializer.deserialize_struct("RpcRequest", &["id", "method", "params"], V)
    }
}

#[allow(dead_code)]
enum Body {
    Single(Request),
    Batch(Vec<Request>),
}

impl<'de> Deserialize<'de> for Body {
    fn deserialize<D: Deserializer<'de>>(deserializer: D) -> Result<Self, D::Error> {
        struct V;
        impl<'de> Visitor<'de> for V {
            type Value = Body;
            fn expecting(&self, f: &mut fmt::Formatter) -> fmt::Result {
                f.write_str("a single rpc request, or a batch of rpc requests")
            }
            fn visit_seq<A: SeqAccess<'de>>(self, mut seq: A) -> Result<Body, A::Error> {
                let mut res = Vec::new();
                while let Some(elem) = seq.next_element()? {
                    res.push(elem);
                }
                Ok(Body::Batch(res))
            }
            fn visit_map<A: MapAccess<'de>>(self, mut map: A) -> Result<Body, A::Error> {
                let mut id = None;
                let mut method = None;
                let mut params = None;
                while let Some(key) = map.next_key()? {
                    match key {
                        "id" => {
                            id = map.next_value()?;
                        },
                        "method" => {
                            method = map.next_value()?;
                        },
                        "params" => {
                            params = map.next_value()?;
                        },
                        _ => {
                            let _: serde_json::Value = map.next_value()?;
                        },
                    }
                }
                Ok(Body::Single(Request {
                    id,
                    method: method.ok_or_else(|| serde::de::Error::missing_field("method"))?,
                    params: params.ok_or_else(|| serde::de::Error::missing_field("params"))?,
                }))
            }
        }
        deserializer.deserialize_any(V)
    }
}

fn reference(body: &str) -> Result<(), String> {
    serde_json::from_str::<Body>(body).map(|_| ()).map_err(|e| e.to_string())
}

const BODIES: &[&str] = &[
    r#"{"params":[]}"#,
    r#"{"method":"x"}"#,
    "{\n  \"method\": 3,\n  \"params\": []\n}",
    r#"{"method":"x","params":true}"#,
    r#"{"method":"x","params":{"a":1}}"#,
    r#"{"method":[1,2],"params":[]}"#,
    r#"{"method":null,"params":[]}"#,
    r#"{"params":1,"method":2}"#,
    r#"{"method":2,"method":"x","params":[]}"#,
    r#"{"me\u0074hod":"x","params":[]}"#,
    r#"{"other\n":"x","method":"x","params":[]}"#,
    r#"{"method":"a\"b","params":"a\"b\n"}"#,
    r#"  "x"  "#,
    "null",
    "true",
    "-5",
    "1.5",
    "12345678901234567890123",
    r#"[{"method":"x","params":[]}, 1]"#,
    r#"[{"method":"x","params":[]}, "y"]"#,
    r#"[[1, "x"]]"#,
    r#"[[]]"#,
    r#"[ [ 1 ] ]"#,
    r#"[[1, 2, []]]"#,
    r#"[[1, "x", 3]]"#,
    r#"[[1, "x", [], 4]]"#,
    "[[1, \"x\", [],\n   4]]",
    r#"[{"method":"a","params":[],"method":"b"}]"#,
    r#"[{"id":1,"id" :2,"method":"a","params":[]}]"#,
    "[{\"params\":[],\n\"params\"\n  :[]}]",
    r#"[{"method":null,"params":[]}]"#,
    r#"[{"params":[]}]"#,
    r#"[{"method":"x"}]"#,
    r#"[{"method":"x","params":[]},{"method":"y","params":7}]"#,
];

#[test]
fn refusals_match_the_json_reader_with_positions() {
    for body in BODIES {
        let expected = reference(body).expect_err(body);
        assert_eq!(refusal(body), expected, "body {}", body);
    }
}

#[test]
fn accepted_bodies_match_the_json_reader() {
    let bodies = [
        r#"{"id":1,"method":"getblockcount","params":[],"jsonrpc":"2.0"}"#,
        r#"{"method":"a","params":[],"method":"b"}"#,
        r#"[{"id":1,"method":"a","params":[]},[2,"b",[9]]]"#,
        r#"[]"#,
    ];
    for body in bodies {
        assert!(reference(body).is_ok());
        assert!(read(body).is_ok(), "body {}", body);
    }
}

#[test]
fn parses_single_request() {
    match read(r#"{"id":1,"method":"getblockcount","params":[],"jsonrpc":"2.0"}"#) {
        Ok(SingleOrBatchRpcRequest::Single(r)) => {
            assert_eq!(r.method.0, "getblockcount");
            assert!(matches!(r.id, Some(JsonValue::Number(JsonNumber::PosInt(1)))));
            assert!(r.params.is_empty());
        },
        other => panic!("unexpected {:?}", other),
    }
}

#[test]
fn null_id_is_no_id() {
    match read(r#"{"id":null,"method":"getblockcount","params":[]}"#) {
        Ok(SingleOrBatchRpcRequest::Single(r)) => assert!(r.id.is_none()),
        other => panic!("unexpected {:?}", other),
    }
}

#[test]
fn later_member_counts() {
    match read(r#"{"method":"a","params":[],"method":"b"}"#) {
        Ok(SingleOrBatchRpcRequest::Single(r)) => assert_eq!(r.method.0, "b"),
        other => panic!("unexpected {:?}", other),
    }
}

#[test]
fn parses_batch_in_order() {
    match read(r#"[{"id":1,"method":"getblockcount","params":[]},[2,"getbestblockhash",[9]]]"#) {
        Ok(SingleOrBatchRpcRequest::Batch(rs)) => {
            assert_eq!(rs.len(), 2);
            assert_eq!(rs[0].method.0, "getblockcount");
            assert_eq!(rs[1].method.0, "getbestblockhash");
            assert_eq!(rs[1].params.len(), 1);
        },
        other => panic!("unexpected {:?}", other),
    }
}

#[test]
fn missing_method_is_reported_after_the_object() {
    assert_eq!(refusal(r#"{"params":[]}"#), "missing field `method` at line 1 column 13");
}

#[test]
fn body_that_is_not_json_keeps_the_readers_text() {
    let expected = serde_json::from_str::<serde_json::Value>("{").unwrap_err().to_string();
    assert_eq!(refusal("{"), expected);
}

#[test]
fn errors_carry_their_position() {
    let span = Span { start: 0, end: 4, parts: vec![], borrowed: vec![] };
    let res = RpcRequest::from_items(vec![], &span, b"[\n ]");
    let e = res.unwrap_err();
    assert!(matches!(e, RequestError::Invalid(Problem::InvalidLength(1), Position { line: 2, column: 2 })));
    assert_eq!(e.message(), "invalid length 1, expected struct RpcRequest with 3 elements at line 2 column 2");
    let missing = RequestError::Invalid(Problem::MissingField(Field::Params), Position { line: 3, column: 7 });
    assert_eq!(missing.message(), "missing field `params` at line 3 column 7");
}

fn to_serde(value: &JsonValue) -> serde_json::Value {
    match value {
        JsonValue::Null => serde_json::Value::Null,
        JsonValue::Bool(b) => serde_json::Value::Bool(*b),
        JsonValue::Number(JsonNumber::PosInt(u)) => serde_json::Value::from(*u),
        JsonValue::Number(JsonNumber::NegInt(i)) => serde_json::Value::from(*i),
        JsonValue::Number(JsonNumber::Float(t)) => serde_json::from_str(t).unwrap(),
        JsonValue::String(s) => serde_json::Value::String(s.clone()),
        JsonValue::Array(items) => serde_json::Value::Array(items.iter().map(to_serde).collect()),
        JsonValue::Object(members) => {
            let mut map = serde_json::Map::new();
            for (k, v) in members {
                map.insert(k.clone(), to_serde(v));
            }
            serde_json::Value::Object(map)
        },
    }
}

fn request(id: Option<u64>, method: &str, params: Vec<JsonValue>) -> RpcRequest {
    RpcRequest {
        id: id.map(|i| JsonValue::Number(JsonNumber::PosInt(i))),
        method: GenericRpcMethod(method.to_owned()),
        params,
    }
}

#[test]
fn written_requests_read_back() {
    let single = SingleOrBatchRpcRequest::Single(request(Some(4), "getblock", vec![JsonValue::String("ab".to_owned())]));
    let text = to_serde(&single.into_json()).to_string();
    assert_eq!(text, r#"{"id":4,"method":"getblock","params":["ab"]}"#);
    match read(&text) {
        Ok(SingleOrBatchRpcRequest::Single(r)) => {
            assert!(matches!(r.id, Some(JsonValue::Number(JsonNumber::PosInt(4)))));
            assert_eq!(r.method.0, "getblock");
            assert!(matches!(&r.params[..], [JsonValue::String(s)] if s == "ab"));
        },
        other => panic!("unexpected {:?}", other),
    }
    let batch = SingleOrBatchRpcRequest::Batch(vec![request(None, "a", vec![]), request(Some(2), "b", vec![JsonValue::Bool(true)])]);
    let text = to_serde(&batch.into_json()).to_string();
    assert_eq!(text, r#"[{"method":"a","params":[]},{"id":2,"method":"b","params":[true]}]"#);
    match read(&text) {
        Ok(SingleOrBatchRpcRequest::Batch(rs)) => {
            assert_eq!(rs.len(), 2);
            assert!(rs[0].id.is_none());
            assert_eq!(rs[1].method.0, "b");
        },
        other => panic!("unexpected {:?}", other),
    }
}
