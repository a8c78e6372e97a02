use tarmac_guest::codec::{decode_request, encode_request, encode_response, ServerRequest,
    ServerResponse, Status};

fn request(headers: Vec<(&str, &str)>, payload: &str) -> ServerRequest {
    ServerRequest {
        headers: headers.iter().map(|(k, v)| (k.to_string(), v.to_string())).collect(),
        payload: payload.to_string(),
    }
}

#[test]
fn encode_request_canonical_bytes() {
    let r = request(vec![("a", "b")], "x");
    let bytes = encode_request(&r);
    assert_eq!(bytes, b"{\"headers\":{\"a\":\"b\"},\"payload\":\"x\"}".to_vec());
}

#[test]
fn encode_request_empty() {
    let r = request(vec![], "");
    let bytes = encode_request(&r);
    assert_eq!(bytes, b"{\"headers\":{},\"payload\":\"\"}".to_vec());
}

#[test]
fn round_trip_plain() {
    let r = request(vec![("content-type", "text/plain"), ("x-trace", "123")], "hello world");
    let back = decode_request(&encode_request(&r)).unwrap();
    assert_eq!(back.headers, r.headers);
    assert_eq!(back.payload, r.payload);
}

#[test]
fn round_trip_empty_request() {
    let r = request(vec![], "");
    let back = decode_request(&encode_request(&r)).unwrap();
    assert!(back.headers.is_empty());
    assert_eq!(back.payload, "");
}

#[test]
fn round_trip_non_ascii() {
    let r = request(vec![("grüße", "welt ✓")], "héllo wörld — ✓ 日本語");
    let back = decode_request(&encode_request(&r)).unwrap();
    assert_eq!(back.headers, r.headers);
    assert_eq!(back.payload, r.payload);
}

#[test]
fn round_trip_escapes_and_controls() {
    let r = request(vec![("quote\"key", "back\\slash")], "line1\nline2\ttab\rret\u{1}ctl");
    let back = decode_request(&encode_request(&r)).unwrap();
    assert_eq!(back.headers, r.headers);
    assert_eq!(back.payload, r.payload);
}

#[test]
fn decode_accepts_whitespace_and_field_order() {
    let text = " { \"payload\" : \"p\" ,\n\t\"headers\" : { \"k\" : \"v\" } } ";
    let req = decode_request(&text.as_bytes().to_vec()).unwrap();
    assert_eq!(req.payload, "p");
    assert_eq!(req.headers, vec![("k".to_string(), "v".to_string())]);
}

#[test]
fn decode_accepts_standard_escapes() {
    let text = "{\"headers\":{},\"payload\":\"\\u0041\\n\\t\\\\\\\"\\/\"}";
    let req = decode_request(&text.as_bytes().to_vec()).unwrap();
    assert_eq!(req.payload, "A\n\t\\\"/");
}

#[test]
fn decode_rejects_non_json() {
    assert!(decode_request(&b"not json at all".to_vec()).is_err());
    assert!(decode_request(&b"".to_vec()).is_err());
    assert!(decode_request(&b"{".to_vec()).is_err());
}

#[test]
fn decode_rejects_missing_fields() {
    assert!(decode_request(&b"{\"headers\":{}}".to_vec()).is_err());
    assert!(decode_request(&b"{\"payload\":\"x\"}".to_vec()).is_err());
    assert!(decode_request(&b"{}".to_vec()).is_err());
}

#[test]
fn decode_rejects_wrong_types() {
    assert!(decode_request(&b"{\"headers\":\"x\",\"payload\":\"y\"}".to_vec()).is_err());
    assert!(decode_request(&b"{\"headers\":{},\"payload\":7}".to_vec()).is_err());
    assert!(decode_request(&b"{\"headers\":{\"a\":1},\"payload\":\"y\"}".to_vec()).is_err());
}

#[test]
fn decode_rejects_duplicate_and_unknown_fields() {
    let dup = b"{\"headers\":{},\"headers\":{},\"payload\":\"x\"}".to_vec();
    assert!(decode_request(&dup).is_err());
    let unknown = b"{\"headers\":{},\"payload\":\"x\",\"extra\":\"y\"}".to_vec();
    assert!(decode_request(&unknown).is_err());
}

#[test]
fn decode_rejects_trailing_garbage() {
    assert!(decode_request(&b"{\"headers\":{},\"payload\":\"x\"} tail".to_vec()).is_err());
}

#[test]
fn decode_rejects_invalid_utf8() {
    let mut bytes = b"{\"headers\":{},\"payload\":\"".to_vec();
    bytes.push(0xff);
    bytes.extend_from_slice(b"\"}");
    assert!(decode_request(&bytes).is_err());
}

#[test]
fn wire_compatible_with_general_json_parser() {
    let resp = ServerResponse {
        headers: vec![("h".to_string(), "v\"w".to_string())],
        status: Status { code: 200, status: "OK".to_string() },
        payload: "payload ✓\n".to_string(),
    };
    let bytes = encode_response(&resp);
    let value: serde_json::Value = serde_json::from_slice(&bytes).unwrap();
    assert_eq!(value.get("status").unwrap().get("code").unwrap().as_u64(), Some(200));
    assert_eq!(value.get("status").unwrap().get("status").unwrap().as_str(), Some("OK"));
    assert_eq!(value.get("payload").unwrap().as_str(), Some("payload ✓\n"));
    assert_eq!(value.get("headers").unwrap().get("h").unwrap().as_str(), Some("v\"w"));
}

#[test]
fn decodes_output_of_general_json_printer() {
    let mut headers = serde_json::Map::new();
    headers.insert("k".to_string(), serde_json::Value::String("v".to_string()));
    let mut obj = serde_json::Map::new();
    obj.insert("headers".to_string(), serde_json::Value::Object(headers));
    obj.insert("payload".to_string(), serde_json::Value::String("data".to_string()));
    let bytes = serde_json::to_vec(&serde_json::Value::Object(obj)).unwrap();
    let req = decode_request(&bytes).unwrap();
    assert_eq!(req.payload, "data");
    assert_eq!(req.headers, vec![("k".to_string(), "v".to_string())]);
}

#[test]
fn encode_response_status_codes() {
    let resp = ServerResponse {
        headers: vec![],
        status: Status { code: 4294967295, status: "max".to_string() },
        payload: String::new(),
    };
    let bytes = encode_response(&resp);
    let value: serde_json::Value = serde_json::from_slice(&bytes).unwrap();
    assert_eq!(value.get("status").unwrap().get("code").unwrap().as_u64(), Some(4294967295));
    let zero = ServerResponse {
        headers: vec![],
        status: Status { code: 0, status: String::new() },
        payload: String::new(),
    };
    let bytes0 = encode_response(&zero);
    assert_eq!(bytes0, b"{\"headers\":{},\"status\":{\"code\":0,\"status\":\"\"},\"payload\":\"\"}".to_vec());
}
