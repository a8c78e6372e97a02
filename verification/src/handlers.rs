//! The sample handlers that ship with the protocol core, re-stated as
//! verified units of behavior: a raw echo, an envelope echo, and an envelope
//! reverse. Each one logs the incoming request through the bridge, ignores
//! the outcome of that call, and computes its response from the payload
//! alone; a payload that is not a valid envelope yields the structured
//! error response (status 503, empty payload), never a fault.
use vstd::prelude::*;
use vstd::utf8::*;
use crate::bridge::HostBridge;
use crate::codec::{
    decode_request, encode_response, parse_request, ser_response, ResponseModel, ServerResponse,
    Status,
};
use crate::dispatch::{CallResult, Handler};
use crate::interop::{base64_decode, base64_decoded, base64_encode, base64_of, string_push};

verus! {

broadcast use vstd::utf8::encode_utf8_valid_utf8, vstd::utf8::encode_utf8_decode_utf8, vstd::utf8::decode_utf8_encode_utf8;

// ---------------------------------------------------------------------------
// Response shapes shared by the envelope handlers
// ---------------------------------------------------------------------------

/// The structured error response for a request that could not be handled:
/// status 503, no headers, empty payload.
pub open spec fn error_response_model() -> ResponseModel {
    ResponseModel {
        headers: Seq::empty(),
        code: 503,
        status: "Service Unavailable"@,
        payload: Seq::empty(),
    }
}

/// A success response carrying `payload`: status 200, no headers.
pub open spec fn ok_response_model(payload: Seq<char>) -> ResponseModel {
    ResponseModel { headers: Seq::empty(), code: 200, status: "OK"@, payload }
}

fn error_response() -> (r: ServerResponse)
    ensures
        r@ == error_response_model(),
{
    let r = ServerResponse {
        headers: Vec::new(),
        status: Status { code: 503, status: String::from_str("Service Unavailable") },
        payload: String::new(),
    };
    proof {
        assert(r@ =~= error_response_model());
    }
    r
}

fn ok_response(payload: String) -> (r: ServerResponse)
    ensures
        r@ == ok_response_model(payload@),
{
    let r = ServerResponse {
        headers: Vec::new(),
        status: Status { code: 200, status: String::from_str("OK") },
        payload,
    };
    proof {
        assert(r@ =~= ok_response_model(r.payload@));
    }
    r
}

// ---------------------------------------------------------------------------
// Raw echo: hand the request bytes straight back
// ---------------------------------------------------------------------------

/// Handler for the `handler` route: logs the request and echoes the raw
/// payload bytes unchanged.
pub struct EchoHandler;

impl Handler for EchoHandler {
    open spec fn spec_handle(&self, payload: Seq<u8>) -> Result<Seq<u8>, Seq<char>> {
        Ok(payload)
    }

    fn handle<B: HostBridge>(&self, bridge: &mut B, payload: &Vec<u8>) -> (r: CallResult) {
        let _logged = bridge.host_call("tarmac", "logger", "trace", payload);
        let copy = payload.clone();
        proof {
            assert(forall|i: int| 0 <= i < payload@.len() ==> copy@[i] == payload@[i]);
            assert(copy@ =~= payload@);
        }
        Ok(copy)
    }
}

// ---------------------------------------------------------------------------
// Envelope echo: decode the request, answer 200 with the same payload
// ---------------------------------------------------------------------------

/// The response the envelope-echo handler computes for raw request bytes.
pub open spec fn hello_response_model(payload: Seq<u8>) -> ResponseModel {
    match parse_request(payload) {
        Some(m) => ok_response_model(m.payload),
        None => error_response_model(),
    }
}

/// Handler for the `request:handler` route: logs the request, decodes the
/// envelope, and echoes its payload string back in a 200 response; a
/// malformed envelope yields the structured error response.
pub struct HelloHandler;

impl Handler for HelloHandler {
    open spec fn spec_handle(&self, payload: Seq<u8>) -> Result<Seq<u8>, Seq<char>> {
        Ok(ser_response(hello_response_model(payload)))
    }

    fn handle<B: HostBridge>(&self, bridge: &mut B, payload: &Vec<u8>) -> (r: CallResult) {
        let _logged = bridge.host_call("tarmac", "logging", "debug", payload);
        let response = match decode_request(payload) {
            Ok(request) => ok_response(request.payload),
            Err(_) => error_response(),
        };
        Ok(encode_response(&response))
    }
}

// ---------------------------------------------------------------------------
// Envelope reverse: decode, base64-decode, reverse the text, re-encode
// ---------------------------------------------------------------------------

/// The payload transformation of the reverse handler: base64-decode, read as
/// UTF-8, reverse the characters, encode back. `None` when the payload is
/// not canonical base64 of valid UTF-8.
pub open spec fn spec_reverse_payload(p: Seq<char>) -> Option<Seq<char>> {
    match base64_decoded(p) {
        None => None,
        Some(b) => if valid_utf8(b) {
            Some(base64_of(encode_utf8(decode_utf8(b).reverse())))
        } else {
            None
        },
    }
}

/// The response the reverse handler computes for raw request bytes.
pub open spec fn tac_response_model(payload: Seq<u8>) -> ResponseModel {
    match parse_request(payload) {
        None => error_response_model(),
        Some(m) => match spec_reverse_payload(m.payload) {
            None => error_response_model(),
            Some(q) => ok_response_model(q),
        },
    }
}

/// Reverse the characters of a string.
fn reverse_string(s: &String) -> (r: String)
    ensures
        r@ == s@.reverse(),
{
    let n = s.as_str().unicode_len();
    let mut out = String::new();
    let mut i: usize = 0;
    while i < n
        invariant
            n == s@.len(),
            i <= n,
            out@ =~= s@.reverse().subrange(0, i as int),
        decreases n - i,
    {
        let c = s.as_str().get_char(n - 1 - i);
        string_push(&mut out, c);
        proof {
            assert(s@.reverse()[i as int] == s@[n - 1 - i]);
            assert(out@ =~= s@.reverse().subrange(0, i as int + 1));
        }
        i = i + 1;
    }
    proof {
        assert(s@.reverse().subrange(0, n as int) =~= s@.reverse());
    }
    out
}

/// Apply the reverse transformation to one payload string. Besides saying
/// exactly what comes back, the contract carries the reverse law: applying
/// the transformation to its own output restores the input, because the
/// base64 engine only decodes canonical encodings.
pub fn reverse_payload(p: &String) -> (r: Option<String>)
    ensures
        r is Some <==> spec_reverse_payload(p@) is Some,
        r matches Some(q) ==> Some(q@) == spec_reverse_payload(p@) && spec_reverse_payload(q@)
            == Some(p@),
{
    let decoded = match base64_decode(p.as_str()) {
        Some(b) => b,
        None => {
            return None;
        },
    };
    let ghost decoded_bytes = decoded@;
    let text = match crate::interop::bytes_to_string(decoded) {
        Some(t) => t,
        None => {
            return None;
        },
    };
    let reversed = reverse_string(&text);
    let encoded = base64_encode(&reversed.as_str().as_bytes_vec());
    proof {
        let b = decoded_bytes;
        assert(reversed@ == decode_utf8(b).reverse());
        assert(encoded@ == base64_of(encode_utf8(decode_utf8(b).reverse())));
        // applying the transformation to the output restores the input
        let b2 = encode_utf8(decode_utf8(b).reverse());
        assert(base64_decoded(encoded@) == Some(b2));
        assert(valid_utf8(b2));
        assert(decode_utf8(b2) == decode_utf8(b).reverse());
        assert(decode_utf8(b).reverse().reverse() =~= decode_utf8(b));
        assert(encode_utf8(decode_utf8(b)) == b);
        assert(spec_reverse_payload(encoded@) == Some(base64_of(b)));
        assert(p@ == base64_of(b));
    }
    Some(encoded)
}

/// The reverse handler: logs the request, decodes the envelope, reverses
/// the base64-encoded text in its payload, and answers 200 with the
/// re-encoded result; any failure along the way yields the structured error
/// response. A module running this sample alone binds it to
/// `request:handler`; one combining the samples picks a route of its own.
pub struct TacHandler;

impl Handler for TacHandler {
    open spec fn spec_handle(&self, payload: Seq<u8>) -> Result<Seq<u8>, Seq<char>> {
        Ok(ser_response(tac_response_model(payload)))
    }

    fn handle<B: HostBridge>(&self, bridge: &mut B, payload: &Vec<u8>) -> (r: CallResult) {
        let _logged = bridge.host_call("tarmac", "logger", "debug", payload);
        let response = match decode_request(payload) {
            Err(_) => error_response(),
            Ok(request) => match reverse_payload(&request.payload) {
                None => error_response(),
                Some(reversed) => ok_response(reversed),
            },
        };
        Ok(encode_response(&response))
    }
}

// ---------------------------------------------------------------------------
// One registrable type covering the samples
// ---------------------------------------------------------------------------

/// The sample handlers as one registrable type: a handler table is
/// homogeneous, so a module that binds routes to different behaviors
/// registers values of this enum.
pub enum SampleHandler {
    Echo(EchoHandler),
    Hello(HelloHandler),
    Tac(TacHandler),
}

impl Handler for SampleHandler {
    open spec fn spec_handle(&self, payload: Seq<u8>) -> Result<Seq<u8>, Seq<char>> {
        match self {
            SampleHandler::Echo(h) => h.spec_handle(payload),
            SampleHandler::Hello(h) => h.spec_handle(payload),
            SampleHandler::Tac(h) => h.spec_handle(payload),
        }
    }

    fn handle<B: HostBridge>(&self, bridge: &mut B, payload: &Vec<u8>) -> (r: CallResult) {
        match self {
            SampleHandler::Echo(h) => h.handle(bridge, payload),
            SampleHandler::Hello(h) => h.handle(bridge, payload),
            SampleHandler::Tac(h) => h.handle(bridge, payload),
        }
    }
}

// ---------------------------------------------------------------------------
// HTTP-style sample: grade a base64 payload handed in by the embedder
// ---------------------------------------------------------------------------

/// The outcome of the HTTP-style sample for the payload text it was given:
/// 500 with no body for an empty payload, otherwise 200 with the decoded
/// text; a payload that is not canonical base64 of valid UTF-8 is a checked
/// failure (400), never an abort.
pub open spec fn http_reply_model(p: Seq<char>) -> (i32, Option<Seq<char>>) {
    if p.len() == 0 {
        (500i32, None)
    } else {
        match base64_decoded(p) {
            None => (400i32, None),
            Some(b) => if valid_utf8(b) {
                (200i32, Some(decode_utf8(b)))
            } else {
                (400i32, None)
            },
        }
    }
}

/// Compute part of the HTTP-style sample: grade the payload and produce the
/// text to print. Reading the environment and printing stay with the caller.
pub fn http_reply(payload: &str) -> (r: (i32, Option<String>))
    ensures
        r.0 == http_reply_model(payload@).0,
        crate::codec::opt_payload_view(r.1) == http_reply_model(payload@).1,
{
    if payload.is_empty() {
        return (500, None);
    }
    match base64_decode(payload) {
        None => (400, None),
        Some(decoded) => match crate::interop::bytes_to_string(decoded) {
            None => (400, None),
            Some(text) => (200, Some(text)),
        },
    }
}

// ---------------------------------------------------------------------------
// Laws
// ---------------------------------------------------------------------------

/// A payload that is not a structurally valid envelope yields the
/// structured error response from both envelope handlers: status 503 and an
/// empty payload, never a fault.
pub proof fn lemma_malformed_payload_is_error(payload: Seq<u8>)
    requires
        parse_request(payload) is None,
    ensures
        hello_response_model(payload) == error_response_model(),
        tac_response_model(payload) == error_response_model(),
        error_response_model().code == 503,
        error_response_model().payload.len() == 0,
{
}

/// Echo law: for any request model, the envelope-echo handler's response to
/// its serialization has status 200 and carries the request payload
/// unchanged.
pub proof fn lemma_hello_echoes(m: crate::codec::RequestModel)
    ensures
        hello_response_model(crate::codec::ser_request(m)).code == 200,
        hello_response_model(crate::codec::ser_request(m)).payload == m.payload,
{
    crate::codec::lemma_request_round_trip(m);
}

/// Reverse law: on the serialization of a request whose payload is canonical
/// base64 of valid UTF-8 text, the reverse handler answers 200 and its
/// response payload encodes the character-reversed text.
pub proof fn lemma_tac_reverses(m: crate::codec::RequestModel, b: Seq<u8>)
    requires
        base64_decoded(m.payload) == Some(b),
        valid_utf8(b),
    ensures
        tac_response_model(crate::codec::ser_request(m)).code == 200,
        tac_response_model(crate::codec::ser_request(m)).payload == base64_of(
            encode_utf8(decode_utf8(b).reverse()),
        ),
{
    crate::codec::lemma_request_round_trip(m);
}

} // verus!
