use base64::Engine;
use tarmac_guest::bridge::NullBridge;
use tarmac_guest::codec::{encode_request, ServerRequest};
use tarmac_guest::dispatch::{dispatch, GuestError};
use tarmac_guest::handlers::{EchoHandler, HelloHandler, SampleHandler, TacHandler};
use tarmac_guest::table::HandlerTable;

fn envelope(payload: &str) -> Vec<u8> {
    encode_request(&ServerRequest { headers: vec![], payload: payload.to_string() })
}

fn b64(text: &str) -> String {
    base64::engine::general_purpose::STANDARD.encode(text.as_bytes())
}

fn sample_table() -> HandlerTable<SampleHandler> {
    let mut table: HandlerTable<SampleHandler> = HandlerTable::new();
    table.register("handler".to_string(), SampleHandler::Echo(EchoHandler));
    table.register("request:handler".to_string(), SampleHandler::Hello(HelloHandler));
    table.register("reverse:handler".to_string(), SampleHandler::Tac(TacHandler));
    table
}

fn response_value(bytes: &[u8]) -> serde_json::Value {
    serde_json::from_slice(bytes).unwrap()
}

fn status_of(value: &serde_json::Value) -> u64 {
    value.get("status").unwrap().get("code").unwrap().as_u64().unwrap()
}

fn payload_of(value: &serde_json::Value) -> String {
    value.get("payload").unwrap().as_str().unwrap().to_string()
}

#[test]
fn unknown_route_is_unimplemented() {
    let table = sample_table();
    let mut bridge = NullBridge;
    for payload in [b"".to_vec(), b"garbage".to_vec(), envelope("x")] {
        let r = dispatch(&table, &mut bridge, "no:such:route", &payload);
        assert!(matches!(r, Err(GuestError::Unimplemented)));
    }
}

#[test]
fn resolve_finds_registered_routes_only() {
    let table = sample_table();
    assert!(table.resolve("handler").is_some());
    assert!(table.resolve("request:handler").is_some());
    assert!(table.resolve("Handler").is_none());
    assert!(table.resolve("").is_none());
}

#[test]
fn registration_overwrite_keeps_second_handler() {
    let mut table: HandlerTable<SampleHandler> = HandlerTable::new();
    table.register("route".to_string(), SampleHandler::Echo(EchoHandler));
    table.register("route".to_string(), SampleHandler::Hello(HelloHandler));
    let mut bridge = NullBridge;
    let bytes = envelope("pay");
    let out = dispatch(&table, &mut bridge, "route", &bytes).unwrap();
    // the envelope handler answers with a response envelope, not a raw echo
    let value = response_value(&out);
    assert_eq!(status_of(&value), 200);
    assert_eq!(payload_of(&value), "pay");
}

#[test]
fn echo_handler_returns_raw_bytes() {
    let table = sample_table();
    let mut bridge = NullBridge;
    for payload in [b"".to_vec(), b"anything at all".to_vec(), vec![0xff, 0x00, 0x7f]] {
        let out = dispatch(&table, &mut bridge, "handler", &payload).unwrap();
        assert_eq!(out, payload);
    }
}

#[test]
fn hello_handler_echoes_payload_with_200() {
    let table = sample_table();
    let mut bridge = NullBridge;
    for payload in ["", "ascii text", "höst ✓ 日本語"] {
        let bytes = envelope(payload);
        let out = dispatch(&table, &mut bridge, "request:handler", &bytes).unwrap();
        let value = response_value(&out);
        assert_eq!(status_of(&value), 200);
        assert_eq!(payload_of(&value), payload);
    }
}

#[test]
fn malformed_payload_yields_structured_error() {
    let table = sample_table();
    let mut bridge = NullBridge;
    for bad in [b"not json".to_vec(), b"{\"headers\":{}}".to_vec(), b"\xff\xfe".to_vec()] {
        for route in ["request:handler", "reverse:handler"] {
            let out = dispatch(&table, &mut bridge, route, &bad).unwrap();
            let value = response_value(&out);
            assert_eq!(status_of(&value), 503);
            assert_eq!(payload_of(&value), "");
        }
    }
}

#[test]
fn tac_handler_reverses_base64_text() {
    let table = sample_table();
    let mut bridge = NullBridge;
    let bytes = envelope(&b64("abcdef"));
    let out = dispatch(&table, &mut bridge, "reverse:handler", &bytes).unwrap();
    let value = response_value(&out);
    assert_eq!(status_of(&value), 200);
    assert_eq!(payload_of(&value), b64("fedcba"));
}

#[test]
fn tac_handler_is_an_involution() {
    let table = sample_table();
    let mut bridge = NullBridge;
    for text in ["abcdef", "a man a plan a canal panama"] {
        let original = b64(text);
        let once = dispatch(&table, &mut bridge, "reverse:handler", &envelope(&original)).unwrap();
        let once_payload = payload_of(&response_value(&once));
        let twice = dispatch(&table, &mut bridge, "reverse:handler", &envelope(&once_payload))
            .unwrap();
        assert_eq!(payload_of(&response_value(&twice)), original);
    }
}

#[test]
fn tac_handler_rejects_bad_base64_payload() {
    let table = sample_table();
    let mut bridge = NullBridge;
    let bytes = envelope("!!! not base64 !!!");
    let out = dispatch(&table, &mut bridge, "reverse:handler", &bytes).unwrap();
    let value = response_value(&out);
    assert_eq!(status_of(&value), 503);
    assert_eq!(payload_of(&value), "");
}

#[test]
fn callback_failure_does_not_poison_requests() {
    // NullBridge fails every capability call the handlers issue for logging.
    let table = sample_table();
    let mut bridge = NullBridge;
    let first = dispatch(&table, &mut bridge, "request:handler", &envelope("one")).unwrap();
    assert_eq!(payload_of(&response_value(&first)), "one");
    // the instance stays usable: an unrelated later request still succeeds
    let second = dispatch(&table, &mut bridge, "handler", &b"two".to_vec()).unwrap();
    assert_eq!(second, b"two".to_vec());
}
