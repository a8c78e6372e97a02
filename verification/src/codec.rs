//! Envelope codec: a deterministic, bidirectional mapping between the
//! `ServerRequest` / `ServerResponse` records and the self-describing JSON
//! wire format agreed with the host:
//!
//! - request:  `{"headers": {string: string, ...}, "payload": string}`
//! - response: `{"headers": {...}, "status": {"code": uint, "status": string}, "payload": string}`
//!
//! Requests travel host -> guest, so they are decoded here; responses travel
//! guest -> host, so they are encoded here. Encoding always succeeds;
//! decoding returns `DecodeError` on every byte sequence that is not a
//! structurally valid envelope.
use vstd::prelude::*;
use vstd::utf8::*;

verus! {

broadcast use vstd::utf8::encode_utf8_valid_utf8, vstd::utf8::encode_utf8_decode_utf8;

// ---------------------------------------------------------------------------
// Records and their models
// ---------------------------------------------------------------------------

/// Numeric status code plus human-readable phrase, as carried in a response.
pub struct Status {
    pub code: u32,
    pub status: String,
}

/// The record the host sends for one request: a header mapping and an opaque
/// payload string (the raw client body, possibly itself base64-encoded).
pub struct ServerRequest {
    pub headers: Vec<(String, String)>,
    pub payload: String,
}

/// The record a handler gives back to the host for one request.
pub struct ServerResponse {
    pub headers: Vec<(String, String)>,
    pub status: Status,
    pub payload: String,
}

/// Error for byte sequences that are not structurally valid envelopes.
#[derive(Debug, PartialEq, Eq, Structural)]
pub struct DecodeError;

/// Mathematical model of a `ServerRequest`.
#[verifier::ext_equal]
pub struct RequestModel {
    pub headers: Seq<(Seq<char>, Seq<char>)>,
    pub payload: Seq<char>,
}

/// Mathematical model of a `ServerResponse`.
#[verifier::ext_equal]
pub struct ResponseModel {
    pub headers: Seq<(Seq<char>, Seq<char>)>,
    pub code: u32,
    pub status: Seq<char>,
    pub payload: Seq<char>,
}

pub open spec fn header_views(hs: Seq<(String, String)>) -> Seq<(Seq<char>, Seq<char>)> {
    hs.map_values(|p: (String, String)| (p.0@, p.1@))
}

impl View for ServerRequest {
    type V = RequestModel;

    open spec fn view(&self) -> RequestModel {
        RequestModel { headers: header_views(self.headers@), payload: self.payload@ }
    }
}

impl View for ServerResponse {
    type V = ResponseModel;

    open spec fn view(&self) -> ResponseModel {
        ResponseModel {
            headers: header_views(self.headers@),
            code: self.status.code,
            status: self.status.status@,
            payload: self.payload@,
        }
    }
}

// ---------------------------------------------------------------------------
// Serialized form, as a specification
// ---------------------------------------------------------------------------

/// Lower-case hex digit for a value below 16.
pub open spec fn hex_digit(x: u8) -> u8
    recommends
        x < 16,
{
    if x < 10 {
        (0x30 + x) as u8
    } else {
        (0x57 + x) as u8
    }
}

/// JSON escaping of one content byte: quote and backslash get a two-byte
/// escape, control bytes the six-byte `\u00XX` form, all else is verbatim.
pub open spec fn esc_byte(x: u8) -> Seq<u8> {
    if x == 0x22 {
        seq![0x5cu8, 0x22u8]
    } else if x == 0x5c {
        seq![0x5cu8, 0x5cu8]
    } else if x < 0x20 {
        seq![0x5cu8, 0x75u8, 0x30u8, 0x30u8, hex_digit(x / 16), hex_digit(x % 16)]
    } else {
        seq![x]
    }
}

pub open spec fn escape_bytes(b: Seq<u8>) -> Seq<u8>
    decreases b.len(),
{
    if b.len() == 0 {
        Seq::empty()
    } else {
        esc_byte(b[0]) + escape_bytes(b.drop_first())
    }
}

/// JSON string token holding the (UTF-8) content bytes `b`.
pub open spec fn ser_string_bytes(b: Seq<u8>) -> Seq<u8> {
    seq![0x22u8] + escape_bytes(b) + seq![0x22u8]
}

/// JSON string token for a character string.
pub open spec fn ser_string(s: Seq<char>) -> Seq<u8> {
    ser_string_bytes(encode_utf8(s))
}

/// Decimal digits of `n`, most significant first, no leading zeros.
pub open spec fn dec_digits(n: nat) -> Seq<u8>
    decreases n,
{
    if n < 10 {
        seq![(0x30 + n) as u8]
    } else {
        dec_digits(n / 10) + seq![(0x30 + n % 10) as u8]
    }
}

pub open spec fn ser_pair(p: (Seq<char>, Seq<char>)) -> Seq<u8> {
    ser_string(p.0) + seq![0x3au8] + ser_string(p.1)
}

pub open spec fn ser_members_rest(hs: Seq<(Seq<char>, Seq<char>)>) -> Seq<u8>
    decreases hs.len(),
{
    if hs.len() == 0 {
        Seq::empty()
    } else {
        seq![0x2cu8] + ser_pair(hs[0]) + ser_members_rest(hs.drop_first())
    }
}

/// The header mapping as a JSON object, members in sequence order.
pub open spec fn ser_headers(hs: Seq<(Seq<char>, Seq<char>)>) -> Seq<u8> {
    if hs.len() == 0 {
        seq![0x7bu8, 0x7du8]
    } else {
        seq![0x7bu8] + ser_pair(hs[0]) + ser_members_rest(hs.drop_first()) + seq![0x7du8]
    }
}

/// The bytes of the field name `headers`.
pub open spec fn key_headers() -> Seq<u8> {
    seq![0x68u8, 0x65u8, 0x61u8, 0x64u8, 0x65u8, 0x72u8, 0x73u8]
}

/// The bytes of the field name `payload`.
pub open spec fn key_payload() -> Seq<u8> {
    seq![0x70u8, 0x61u8, 0x79u8, 0x6cu8, 0x6fu8, 0x61u8, 0x64u8]
}

/// The bytes of the field name `status`.
pub open spec fn key_status() -> Seq<u8> {
    seq![0x73u8, 0x74u8, 0x61u8, 0x74u8, 0x75u8, 0x73u8]
}

/// The bytes of the field name `code`.
pub open spec fn key_code() -> Seq<u8> {
    seq![0x63u8, 0x6fu8, 0x64u8, 0x65u8]
}

/// The canonical serialization of a request.
pub open spec fn ser_request(r: RequestModel) -> Seq<u8> {
    seq![0x7bu8] + ser_string_bytes(key_headers()) + seq![0x3au8] + ser_headers(r.headers)
        + seq![0x2cu8] + ser_string_bytes(key_payload()) + seq![0x3au8] + ser_string(r.payload)
        + seq![0x7du8]
}

/// The status record as a JSON object.
pub open spec fn ser_status(code: u32, phrase: Seq<char>) -> Seq<u8> {
    seq![0x7bu8] + ser_string_bytes(key_code()) + seq![0x3au8] + dec_digits(code as nat)
        + seq![0x2cu8] + ser_string_bytes(key_status()) + seq![0x3au8] + ser_string(phrase)
        + seq![0x7du8]
}

/// The canonical serialization of a response.
pub open spec fn ser_response(r: ResponseModel) -> Seq<u8> {
    seq![0x7bu8] + ser_string_bytes(key_headers()) + seq![0x3au8] + ser_headers(r.headers)
        + seq![0x2cu8] + ser_string_bytes(key_status()) + seq![0x3au8] + ser_status(
        r.code,
        r.status,
    ) + seq![0x2cu8] + ser_string_bytes(key_payload()) + seq![0x3au8] + ser_string(r.payload)
        + seq![0x7du8]
}

// ---------------------------------------------------------------------------
// Encoder
// ---------------------------------------------------------------------------

fn hex_digit_exec(x: u8) -> (r: u8)
    requires
        x < 16,
    ensures
        r == hex_digit(x),
{
    if x < 10 {
        0x30 + x
    } else {
        0x57 + x
    }
}

fn write_escaped(out: &mut Vec<u8>, b: &Vec<u8>, i: usize)
    requires
        i <= b@.len(),
    ensures
        final(out)@ == old(out)@ + escape_bytes(b@.skip(i as int)),
    decreases b@.len() - i,
{
    if i < b.len() {
        let x = b[i];
        if x == 0x22 {
            out.push(0x5c);
            out.push(0x22);
        } else if x == 0x5c {
            out.push(0x5c);
            out.push(0x5c);
        } else if x < 0x20 {
            out.push(0x5c);
            out.push(0x75);
            out.push(0x30);
            out.push(0x30);
            out.push(hex_digit_exec(x / 16));
            out.push(hex_digit_exec(x % 16));
        } else {
            out.push(x);
        }
        proof {
            assert(out@ =~= old(out)@ + esc_byte(b@[i as int]));
            assert(b@.skip(i as int).drop_first() =~= b@.skip(i as int + 1));
        }
        write_escaped(out, b, i + 1);
        proof {
            assert(old(out)@ + esc_byte(b@[i as int]) + escape_bytes(b@.skip(i as int + 1)) =~= old(
                out,
            )@ + escape_bytes(b@.skip(i as int)));
        }
    } else {
        proof {
            assert(b@.skip(i as int) =~= Seq::<u8>::empty());
            assert(out@ =~= old(out)@ + escape_bytes(b@.skip(i as int)));
        }
    }
}

/// Append the JSON string token for `s` to `out`.
fn write_json_string(out: &mut Vec<u8>, s: &String)
    ensures
        final(out)@ == old(out)@ + ser_string(s@),
{
    let bytes = s.as_str().as_bytes_vec();
    out.push(0x22);
    write_escaped(out, &bytes, 0);
    out.push(0x22);
    proof {
        assert(bytes@.skip(0) =~= bytes@);
        assert(out@ =~= old(out)@ + ser_string(s@));
    }
}

/// Append the decimal digits of `n` to `out`.
fn write_u32(out: &mut Vec<u8>, n: u32)
    ensures
        final(out)@ == old(out)@ + dec_digits(n as nat),
    decreases n,
{
    if n < 10 {
        out.push(0x30 + (n as u8));
        proof {
            assert(out@ =~= old(out)@ + dec_digits(n as nat));
        }
    } else {
        write_u32(out, n / 10);
        out.push(0x30 + ((n % 10) as u8));
        proof {
            assert(n as nat / 10 == (n / 10) as nat);
            assert(out@ =~= old(out)@ + dec_digits(n as nat));
        }
    }
}

fn write_header_pair(out: &mut Vec<u8>, k: &String, v: &String)
    ensures
        final(out)@ == old(out)@ + ser_pair((k@, v@)),
{
    write_json_string(out, k);
    out.push(0x3a);
    write_json_string(out, v);
    proof {
        assert(out@ =~= old(out)@ + ser_pair((k@, v@)));
    }
}

fn write_headers_rest(out: &mut Vec<u8>, hs: &Vec<(String, String)>, i: usize)
    requires
        i <= hs@.len(),
    ensures
        final(out)@ == old(out)@ + ser_members_rest(header_views(hs@).skip(i as int)),
    decreases hs@.len() - i,
{
    if i < hs.len() {
        out.push(0x2c);
        write_header_pair(out, &hs[i].0, &hs[i].1);
        proof {
            assert(header_views(hs@).skip(i as int).drop_first() =~= header_views(hs@).skip(
                i as int + 1,
            ));
            assert(header_views(hs@).skip(i as int)[0] == (hs@[i as int].0@, hs@[i as int].1@));
        }
        write_headers_rest(out, hs, i + 1);
        proof {
            assert(out@ =~= old(out)@ + ser_members_rest(header_views(hs@).skip(i as int)));
        }
    } else {
        proof {
            assert(header_views(hs@).skip(i as int) =~= Seq::<(Seq<char>, Seq<char>)>::empty());
            assert(out@ =~= old(out)@ + ser_members_rest(header_views(hs@).skip(i as int)));
        }
    }
}

/// Append the header object to `out`.
fn write_headers(out: &mut Vec<u8>, hs: &Vec<(String, String)>)
    ensures
        final(out)@ == old(out)@ + ser_headers(header_views(hs@)),
{
    out.push(0x7b);
    if hs.len() > 0 {
        write_header_pair(out, &hs[0].0, &hs[0].1);
        proof {
            assert(header_views(hs@)[0] == (hs@[0].0@, hs@[0].1@));
            assert(header_views(hs@).skip(1) =~= header_views(hs@).drop_first());
        }
        write_headers_rest(out, hs, 1);
    }
    out.push(0x7d);
    proof {
        assert(out@ =~= old(out)@ + ser_headers(header_views(hs@)));
    }
}

/// `escape_bytes` leaves a byte sequence without quotes, backslashes or
/// control bytes unchanged.
proof fn lemma_escape_plain(b: Seq<u8>)
    requires
        forall|i: int| 0 <= i < b.len() ==> b[i] != 0x22 && b[i] != 0x5c && b[i] >= 0x20,
    ensures
        escape_bytes(b) == b,
    decreases b.len(),
{
    if b.len() == 0 {
        assert(escape_bytes(b) =~= b);
    } else {
        lemma_escape_plain(b.drop_first());
        assert(escape_bytes(b) =~= b);
    }
}

/// Append `"headers":` to `out`.
fn write_key_headers(out: &mut Vec<u8>)
    ensures
        final(out)@ == old(out)@ + ser_string_bytes(key_headers()) + seq![0x3au8],
{
    out.push(0x22);
    out.push(0x68);
    out.push(0x65);
    out.push(0x61);
    out.push(0x64);
    out.push(0x65);
    out.push(0x72);
    out.push(0x73);
    out.push(0x22);
    out.push(0x3a);
    proof {
        lemma_escape_plain(key_headers());
        assert(out@ =~= old(out)@ + ser_string_bytes(key_headers()) + seq![0x3au8]);
    }
}

/// Append `"payload":` to `out`.
fn write_key_payload(out: &mut Vec<u8>)
    ensures
        final(out)@ == old(out)@ + ser_string_bytes(key_payload()) + seq![0x3au8],
{
    out.push(0x22);
    out.push(0x70);
    out.push(0x61);
    out.push(0x79);
    out.push(0x6c);
    out.push(0x6f);
    out.push(0x61);
    out.push(0x64);
    out.push(0x22);
    out.push(0x3a);
    proof {
        lemma_escape_plain(key_payload());
        assert(out@ =~= old(out)@ + ser_string_bytes(key_payload()) + seq![0x3au8]);
    }
}

/// Append `"status":` to `out`.
fn write_key_status(out: &mut Vec<u8>)
    ensures
        final(out)@ == old(out)@ + ser_string_bytes(key_status()) + seq![0x3au8],
{
    out.push(0x22);
    out.push(0x73);
    out.push(0x74);
    out.push(0x61);
    out.push(0x74);
    out.push(0x75);
    out.push(0x73);
    out.push(0x22);
    out.push(0x3a);
    proof {
        lemma_escape_plain(key_status());
        assert(out@ =~= old(out)@ + ser_string_bytes(key_status()) + seq![0x3au8]);
    }
}

/// Append `"code":` to `out`.
fn write_key_code(out: &mut Vec<u8>)
    ensures
        final(out)@ == old(out)@ + ser_string_bytes(key_code()) + seq![0x3au8],
{
    out.push(0x22);
    out.push(0x63);
    out.push(0x6f);
    out.push(0x64);
    out.push(0x65);
    out.push(0x22);
    out.push(0x3a);
    proof {
        lemma_escape_plain(key_code());
        assert(out@ =~= old(out)@ + ser_string_bytes(key_code()) + seq![0x3au8]);
    }
}

/// Serialize a request into its envelope bytes. Always succeeds.
pub fn encode_request(r: &ServerRequest) -> (out: Vec<u8>)
    ensures
        out@ == ser_request(r@),
{
    let mut out: Vec<u8> = Vec::new();
    out.push(0x7b);
    write_key_headers(&mut out);
    write_headers(&mut out, &r.headers);
    out.push(0x2c);
    write_key_payload(&mut out);
    write_json_string(&mut out, &r.payload);
    out.push(0x7d);
    proof {
        assert(out@ =~= ser_request(r@));
    }
    out
}

/// Serialize a response into its envelope bytes. Always succeeds.
pub fn encode_response(r: &ServerResponse) -> (out: Vec<u8>)
    ensures
        out@ == ser_response(r@),
{
    let mut out: Vec<u8> = Vec::new();
    out.push(0x7b);
    write_key_headers(&mut out);
    write_headers(&mut out, &r.headers);
    out.push(0x2c);
    write_key_status(&mut out);
    out.push(0x7b);
    write_key_code(&mut out);
    write_u32(&mut out, r.status.code);
    out.push(0x2c);
    write_key_status(&mut out);
    write_json_string(&mut out, &r.status.status);
    out.push(0x7d);
    out.push(0x2c);
    write_key_payload(&mut out);
    write_json_string(&mut out, &r.payload);
    out.push(0x7d);
    proof {
        assert(out@ =~= ser_response(r@));
    }
    out
}

// ---------------------------------------------------------------------------
// Parsed form, as a specification
// ---------------------------------------------------------------------------

pub open spec fn is_ws(x: u8) -> bool {
    x == 0x20 || x == 0x09 || x == 0x0a || x == 0x0d
}

/// The remainder of `s` after its longest whitespace prefix.
pub open spec fn spec_ws(s: Seq<u8>) -> Seq<u8>
    decreases s.len(),
{
    if s.len() > 0 && is_ws(s[0]) {
        spec_ws(s.drop_first())
    } else {
        s
    }
}

pub open spec fn hex_val(x: u8) -> Option<u8> {
    if 0x30 <= x && x <= 0x39 {
        Some((x - 0x30) as u8)
    } else if 0x61 <= x && x <= 0x66 {
        Some((x - 0x57) as u8)
    } else if 0x41 <= x && x <= 0x46 {
        Some((x - 0x37) as u8)
    } else {
        None
    }
}

/// The content byte named by a single-character escape, if any.
pub open spec fn esc_code(e: u8) -> Option<u8> {
    if e == 0x22 {
        Some(0x22u8)
    } else if e == 0x5c {
        Some(0x5cu8)
    } else if e == 0x2f {
        Some(0x2fu8)
    } else if e == 0x62 {
        Some(0x08u8)
    } else if e == 0x66 {
        Some(0x0cu8)
    } else if e == 0x6e {
        Some(0x0au8)
    } else if e == 0x72 {
        Some(0x0du8)
    } else if e == 0x74 {
        Some(0x09u8)
    } else {
        None
    }
}

/// Parse the body of a JSON string after its opening quote: the unescaped
/// content bytes and the remainder after the closing quote. `\uXXXX` escapes
/// are accepted in the ASCII range, where they name a single content byte.
pub open spec fn parse_str_body(s: Seq<u8>) -> Option<(Seq<u8>, Seq<u8>)>
    decreases s.len(),
{
    if s.len() == 0 {
        None
    } else if s[0] == 0x22 {
        Some((Seq::empty(), s.drop_first()))
    } else if s[0] == 0x5c {
        if s.len() < 2 {
            None
        } else if esc_code(s[1]) is Some {
            match parse_str_body(s.skip(2)) {
                Some((d, r)) => Some((seq![esc_code(s[1])->Some_0] + d, r)),
                None => None,
            }
        } else if s[1] == 0x75 {
            if s.len() < 6 {
                None
            } else {
                match (hex_val(s[2]), hex_val(s[3]), hex_val(s[4]), hex_val(s[5])) {
                    (Some(h1), Some(h2), Some(h3), Some(h4)) => {
                        let v = h1 * 4096 + h2 * 256 + h3 * 16 + h4;
                        if v <= 0x7f {
                            match parse_str_body(s.skip(6)) {
                                Some((d, r)) => Some((seq![v as u8] + d, r)),
                                None => None,
                            }
                        } else {
                            None
                        }
                    },
                    _ => None,
                }
            }
        } else {
            None
        }
    } else if s[0] < 0x20 {
        None
    } else {
        match parse_str_body(s.drop_first()) {
            Some((d, r)) => Some((seq![s[0]] + d, r)),
            None => None,
        }
    }
}

/// Parse a whole JSON string token, opening quote included.
pub open spec fn parse_string(s: Seq<u8>) -> Option<(Seq<u8>, Seq<u8>)> {
    if s.len() > 0 && s[0] == 0x22 {
        parse_str_body(s.drop_first())
    } else {
        None
    }
}

pub proof fn lemma_ws_len(s: Seq<u8>)
    ensures
        spec_ws(s).len() <= s.len(),
    decreases s.len(),
{
    if s.len() > 0 && is_ws(s[0]) {
        lemma_ws_len(s.drop_first());
    }
}

pub proof fn lemma_str_body_len(s: Seq<u8>)
    ensures
        parse_str_body(s) matches Some(p) ==> p.1.len() < s.len(),
    decreases s.len(),
{
    if s.len() == 0 {
    } else if s[0] == 0x22 {
    } else if s[0] == 0x5c {
        if s.len() >= 2 && esc_code(s[1]) is Some {
            lemma_str_body_len(s.skip(2));
        } else if s.len() >= 6 && s[1] == 0x75 {
            lemma_str_body_len(s.skip(6));
        }
    } else if s[0] >= 0x20 {
        lemma_str_body_len(s.drop_first());
    }
}

pub proof fn lemma_parse_string_len(s: Seq<u8>)
    ensures
        parse_string(s) matches Some(p) ==> p.1.len() + 2 <= s.len(),
{
    if s.len() > 0 && s[0] == 0x22 {
        lemma_str_body_len(s.drop_first());
    }
}

/// Parse the member list of the header object: `"k":"v"` pairs separated by
/// commas, ending at the closing brace. Keys and values must be valid UTF-8.
pub open spec fn parse_hdr_members(s: Seq<u8>) -> Option<(Seq<(Seq<char>, Seq<char>)>, Seq<u8>)>
    decreases s.len(),
        via parse_hdr_members_dec
{
    let t = spec_ws(s);
    match parse_string(t) {
        None => None,
        Some((kb, r1)) => {
            if !valid_utf8(kb) {
                None
            } else {
                let r2 = spec_ws(r1);
                if r2.len() == 0 || r2[0] != 0x3a {
                    None
                } else {
                    let r3 = spec_ws(r2.drop_first());
                    match parse_string(r3) {
                        None => None,
                        Some((vb, r4)) => {
                            if !valid_utf8(vb) {
                                None
                            } else {
                                let pair = (decode_utf8(kb), decode_utf8(vb));
                                let r5 = spec_ws(r4);
                                if r5.len() == 0 {
                                    None
                                } else if r5[0] == 0x2c {
                                    match parse_hdr_members(r5.drop_first()) {
                                        Some((rest_pairs, r6)) => Some(
                                            (seq![pair] + rest_pairs, r6),
                                        ),
                                        None => None,
                                    }
                                } else if r5[0] == 0x7d {
                                    Some((seq![pair], r5.drop_first()))
                                } else {
                                    None
                                }
                            }
                        },
                    }
                }
            }
        },
    }
}

#[via_fn]
proof fn parse_hdr_members_dec(s: Seq<u8>) {
    let t = spec_ws(s);
    lemma_ws_len(s);
    lemma_parse_string_len(t);
    match parse_string(t) {
        Some((kb, r1)) => {
            let r2 = spec_ws(r1);
            lemma_ws_len(r1);
            if r2.len() > 0 && r2[0] == 0x3a {
                let r3 = spec_ws(r2.drop_first());
                lemma_ws_len(r2.drop_first());
                lemma_parse_string_len(r3);
                match parse_string(r3) {
                    Some((vb, r4)) => {
                        lemma_ws_len(r4);
                    },
                    None => {},
                }
            }
        },
        None => {},
    }
}

/// Parse the header object, opening brace included.
pub open spec fn parse_hdr_obj(s: Seq<u8>) -> Option<(Seq<(Seq<char>, Seq<char>)>, Seq<u8>)> {
    if s.len() == 0 || s[0] != 0x7b {
        None
    } else {
        let t = spec_ws(s.drop_first());
        if t.len() > 0 && t[0] == 0x7d {
            Some((Seq::empty(), t.drop_first()))
        } else {
            parse_hdr_members(s.drop_first())
        }
    }
}

pub proof fn lemma_hdr_members_len(s: Seq<u8>)
    ensures
        parse_hdr_members(s) matches Some(p) ==> p.1.len() < s.len(),
    decreases s.len(),
{
    let t = spec_ws(s);
    lemma_ws_len(s);
    lemma_parse_string_len(t);
    match parse_string(t) {
        Some((kb, r1)) => {
            let r2 = spec_ws(r1);
            lemma_ws_len(r1);
            if r2.len() > 0 && r2[0] == 0x3a {
                let r3 = spec_ws(r2.drop_first());
                lemma_ws_len(r2.drop_first());
                lemma_parse_string_len(r3);
                match parse_string(r3) {
                    Some((vb, r4)) => {
                        let r5 = spec_ws(r4);
                        lemma_ws_len(r4);
                        if r5.len() > 0 && r5[0] == 0x2c {
                            lemma_hdr_members_len(r5.drop_first());
                        }
                    },
                    None => {},
                }
            }
        },
        None => {},
    }
}

pub proof fn lemma_hdr_obj_len(s: Seq<u8>)
    ensures
        parse_hdr_obj(s) matches Some(p) ==> p.1.len() < s.len(),
{
    if s.len() > 0 && s[0] == 0x7b {
        lemma_ws_len(s.drop_first());
        lemma_hdr_members_len(s.drop_first());
    }
}

/// Parse the member list of the request object. `h` and `p` carry the fields
/// seen so far; each must appear exactly once, and no other field is allowed.
pub open spec fn parse_req_members(
    s: Seq<u8>,
    h: Option<Seq<(Seq<char>, Seq<char>)>>,
    p: Option<Seq<char>>,
) -> Option<(RequestModel, Seq<u8>)>
    decreases s.len(),
        via parse_req_members_dec
{
    let t = spec_ws(s);
    match parse_string(t) {
        None => None,
        Some((kb, r1)) => {
            let r2 = spec_ws(r1);
            if r2.len() == 0 || r2[0] != 0x3a {
                None
            } else {
                let r3 = spec_ws(r2.drop_first());
                if kb == key_headers() {
                    if h is Some {
                        None
                    } else {
                        match parse_hdr_obj(r3) {
                            None => None,
                            Some((hs, r4)) => {
                                let r5 = spec_ws(r4);
                                if r5.len() == 0 {
                                    None
                                } else if r5[0] == 0x2c {
                                    parse_req_members(r5.drop_first(), Some(hs), p)
                                } else if r5[0] == 0x7d {
                                    if p is Some {
                                        Some(
                                            (
                                                RequestModel {
                                                    headers: hs,
                                                    payload: p->Some_0,
                                                },
                                                r5.drop_first(),
                                            ),
                                        )
                                    } else {
                                        None
                                    }
                                } else {
                                    None
                                }
                            },
                        }
                    }
                } else if kb == key_payload() {
                    if p is Some {
                        None
                    } else {
                        match parse_string(r3) {
                            None => None,
                            Some((vb, r4)) => {
                                if !valid_utf8(vb) {
                                    None
                                } else {
                                    let pay = decode_utf8(vb);
                                    let r5 = spec_ws(r4);
                                    if r5.len() == 0 {
                                        None
                                    } else if r5[0] == 0x2c {
                                        parse_req_members(r5.drop_first(), h, Some(pay))
                                    } else if r5[0] == 0x7d {
                                        if h is Some {
                                            Some(
                                                (
                                                    RequestModel {
                                                        headers: h->Some_0,
                                                        payload: pay,
                                                    },
                                                    r5.drop_first(),
                                                ),
                                            )
                                        } else {
                                            None
                                        }
                                    } else {
                                        None
                                    }
                                }
                            },
                        }
                    }
                } else {
                    None
                }
            }
        },
    }
}

#[via_fn]
proof fn parse_req_members_dec(
    s: Seq<u8>,
    h: Option<Seq<(Seq<char>, Seq<char>)>>,
    p: Option<Seq<char>>,
) {
    let t = spec_ws(s);
    lemma_ws_len(s);
    lemma_parse_string_len(t);
    match parse_string(t) {
        Some((kb, r1)) => {
            let r2 = spec_ws(r1);
            lemma_ws_len(r1);
            if r2.len() > 0 && r2[0] == 0x3a {
                let r3 = spec_ws(r2.drop_first());
                lemma_ws_len(r2.drop_first());
                lemma_hdr_obj_len(r3);
                lemma_parse_string_len(r3);
                match parse_hdr_obj(r3) {
                    Some((hs, r4)) => {
                        lemma_ws_len(r4);
                    },
                    None => {},
                }
                match parse_string(r3) {
                    Some((vb, r4)) => {
                        lemma_ws_len(r4);
                    },
                    None => {},
                }
            }
        },
        None => {},
    }
}

/// Parse a whole request envelope: one request object, with nothing but
/// whitespace around it.
pub open spec fn parse_request(s: Seq<u8>) -> Option<RequestModel> {
    let t = spec_ws(s);
    if t.len() == 0 || t[0] != 0x7b {
        None
    } else {
        match parse_req_members(t.drop_first(), None, None) {
            None => None,
            Some((m, r)) => if spec_ws(r).len() == 0 {
                Some(m)
            } else {
                None
            },
        }
    }
}

// ---------------------------------------------------------------------------
// Decoder
// ---------------------------------------------------------------------------

/// Index just past the whitespace run starting at `i`.
fn skip_ws(v: &Vec<u8>, i: usize) -> (j: usize)
    requires
        i <= v@.len(),
    ensures
        i <= j <= v@.len(),
        v@.skip(j as int) == spec_ws(v@.skip(i as int)),
    decreases v@.len() - i,
{
    if i < v.len() && (v[i] == 0x20 || v[i] == 0x09 || v[i] == 0x0a || v[i] == 0x0d) {
        proof {
            assert(v@.skip(i as int)[0] == v@[i as int]);
            assert(v@.skip(i as int).drop_first() =~= v@.skip(i as int + 1));
        }
        skip_ws(v, i + 1)
    } else {
        proof {
            if i < v@.len() {
                assert(v@.skip(i as int)[0] == v@[i as int]);
            }
        }
        i
    }
}

fn esc_code_exec(e: u8) -> (r: Option<u8>)
    ensures
        r == esc_code(e),
{
    if e == 0x22 {
        Some(0x22)
    } else if e == 0x5c {
        Some(0x5c)
    } else if e == 0x2f {
        Some(0x2f)
    } else if e == 0x62 {
        Some(0x08)
    } else if e == 0x66 {
        Some(0x0c)
    } else if e == 0x6e {
        Some(0x0a)
    } else if e == 0x72 {
        Some(0x0d)
    } else if e == 0x74 {
        Some(0x09)
    } else {
        None
    }
}

fn hex_val_exec(x: u8) -> (r: Option<u8>)
    ensures
        r == hex_val(x),
{
    if 0x30 <= x && x <= 0x39 {
        Some(x - 0x30)
    } else if 0x61 <= x && x <= 0x66 {
        Some(x - 0x57)
    } else if 0x41 <= x && x <= 0x46 {
        Some(x - 0x37)
    } else {
        None
    }
}

/// Read a string body starting at `i` (just past the opening quote),
/// appending the unescaped content bytes to `out`.
fn read_str_body(v: &Vec<u8>, i: usize, out: &mut Vec<u8>) -> (r: Option<usize>)
    requires
        i <= v@.len(),
    ensures
        match parse_str_body(v@.skip(i as int)) {
            Some(p) => r matches Some(j) && i <= j <= v@.len() && final(out)@ == old(out)@ + p.0
                && v@.skip(j as int) == p.1,
            None => r is None,
        },
    decreases v@.len() - i,
{
    if i >= v.len() {
        return None;
    }
    let x = v[i];
    proof {
        assert(v@.skip(i as int)[0] == v@[i as int]);
        assert(v@.skip(i as int).len() == v@.len() - i);
    }
    if x == 0x22 {
        proof {
            assert(v@.skip(i as int).drop_first() =~= v@.skip(i as int + 1));
            assert(out@ =~= old(out)@ + Seq::<u8>::empty());
        }
        Some(i + 1)
    } else if x == 0x5c {
        if v.len() - i < 2 {
            return None;
        }
        let e = v[i + 1];
        proof {
            assert(v@.skip(i as int)[1] == v@[i as int + 1]);
        }
        match esc_code_exec(e) {
            Some(c) => {
                out.push(c);
                proof {
                    assert(v@.skip(i as int).skip(2) =~= v@.skip(i as int + 2));
                }
                match read_str_body(v, i + 2, out) {
                    Some(j) => {
                        proof {
                            match parse_str_body(v@.skip(i as int + 2)) {
                                Some(p2) => {
                                    assert(out@ =~= old(out)@ + (seq![c] + p2.0));
                                                            },
                                None => {},
                            }
                        }
                        Some(j)
                    },
                    None => None,
                }
            },
            None => {
                if e == 0x75 {
                    if v.len() - i < 6 {
                        return None;
                    }
                    proof {
                        assert(v@.skip(i as int)[2] == v@[i as int + 2]);
                        assert(v@.skip(i as int)[3] == v@[i as int + 3]);
                        assert(v@.skip(i as int)[4] == v@[i as int + 4]);
                        assert(v@.skip(i as int)[5] == v@[i as int + 5]);
                    }
                    let h1 = match hex_val_exec(v[i + 2]) {
                        Some(h) => h,
                        None => return None,
                    };
                    let h2 = match hex_val_exec(v[i + 3]) {
                        Some(h) => h,
                        None => return None,
                    };
                    let h3 = match hex_val_exec(v[i + 4]) {
                        Some(h) => h,
                        None => return None,
                    };
                    let h4 = match hex_val_exec(v[i + 5]) {
                        Some(h) => h,
                        None => return None,
                    };
                    let val: u32 = (h1 as u32) * 4096 + (h2 as u32) * 256 + (h3 as u32) * 16 + (
                    h4 as u32);
                    if val <= 0x7f {
                        out.push(val as u8);
                        proof {
                            assert(v@.skip(i as int).skip(6) =~= v@.skip(i as int + 6));
                        }
                        match read_str_body(v, i + 6, out) {
                            Some(j) => {
                                proof {
                                    match parse_str_body(v@.skip(i as int + 6)) {
                                        Some(p2) => {
                                            assert(out@ =~= old(out)@ + (seq![val as u8] + p2.0));
                                                                            },
                                        None => {},
                                    }
                                }
                                Some(j)
                            },
                            None => None,
                        }
                    } else {
                        None
                    }
                } else {
                    None
                }
            },
        }
    } else if x < 0x20 {
        None
    } else {
        out.push(x);
        proof {
            assert(v@.skip(i as int).drop_first() =~= v@.skip(i as int + 1));
        }
        match read_str_body(v, i + 1, out) {
            Some(j) => {
                proof {
                    match parse_str_body(v@.skip(i as int + 1)) {
                        Some(p2) => {
                            assert(out@ =~= old(out)@ + (seq![x] + p2.0));
                                            },
                        None => {},
                    }
                }
                Some(j)
            },
            None => None,
        }
    }
}

/// Read a whole string token starting at `i`, appending the content bytes to
/// `out`.
fn read_string(v: &Vec<u8>, i: usize, out: &mut Vec<u8>) -> (r: Option<usize>)
    requires
        i <= v@.len(),
    ensures
        match parse_string(v@.skip(i as int)) {
            Some(p) => r matches Some(j) && i <= j <= v@.len() && final(out)@ == old(out)@ + p.0
                && v@.skip(j as int) == p.1,
            None => r is None,
        },
{
    if i < v.len() && v[i] == 0x22 {
        proof {
            assert(v@.skip(i as int)[0] == v@[i as int]);
            assert(v@.skip(i as int).drop_first() =~= v@.skip(i as int + 1));
        }
        read_str_body(v, i + 1, out)
    } else {
        proof {
            if i < v@.len() {
                assert(v@.skip(i as int)[0] == v@[i as int]);
            }
        }
        None
    }
}

/// Read one `"key":"value"` member list of the header object, pushing the
/// decoded pairs onto `out`.
fn read_hdr_members(v: &Vec<u8>, i: usize, out: &mut Vec<(String, String)>) -> (r: Option<usize>)
    requires
        i <= v@.len(),
    ensures
        match parse_hdr_members(v@.skip(i as int)) {
            Some(p) => r matches Some(j) && i <= j <= v@.len() && header_views(final(out)@)
                == header_views(old(out)@) + p.0 && v@.skip(j as int) == p.1,
            None => r is None,
        },
    decreases v@.len() - i,
{
    let j0 = skip_ws(v, i);
    let mut kb: Vec<u8> = Vec::new();
    let jk = match read_string(v, j0, &mut kb) {
        Some(j) => j,
        None => {
            return None;
        },
    };
    let ghost kbv = kb@;
    let k_str = match crate::interop::bytes_to_string(kb) {
        Some(s) => s,
        None => {
            return None;
        },
    };
    let j1 = skip_ws(v, jk);
    if j1 >= v.len() || v[j1] != 0x3a {
        proof {
            if j1 < v@.len() {
                assert(v@.skip(j1 as int)[0] == v@[j1 as int]);
            }
        }
        return None;
    }
    proof {
        assert(v@.skip(j1 as int)[0] == v@[j1 as int]);
        assert(v@.skip(j1 as int).drop_first() =~= v@.skip(j1 as int + 1));
    }
    let j2 = skip_ws(v, j1 + 1);
    let mut vb: Vec<u8> = Vec::new();
    let jv = match read_string(v, j2, &mut vb) {
        Some(j) => j,
        None => {
            return None;
        },
    };
    let ghost vbv = vb@;
    let v_str = match crate::interop::bytes_to_string(vb) {
        Some(s) => s,
        None => {
            return None;
        },
    };
    let j3 = skip_ws(v, jv);
    if j3 >= v.len() {
        return None;
    }
    let c = v[j3];
    proof {
        assert(v@.skip(j3 as int)[0] == v@[j3 as int]);
    }
    if c == 0x2c {
        out.push((k_str, v_str));
        proof {
            assert(v@.skip(j3 as int).drop_first() =~= v@.skip(j3 as int + 1));
            assert(header_views(out@) =~= header_views(old(out)@) + seq![
                (decode_utf8(kbv), decode_utf8(vbv)),
            ]);
        }
        match read_hdr_members(v, j3 + 1, out) {
            Some(j) => {
                proof {
                    match parse_hdr_members(v@.skip(j3 as int + 1)) {
                        Some(p2) => {
                            assert(header_views(out@) =~= header_views(old(out)@) + (seq![
                                (decode_utf8(kbv), decode_utf8(vbv)),
                            ] + p2.0));
                                            },
                        None => {},
                    }
                }
                Some(j)
            },
            None => None,
        }
    } else if c == 0x7d {
        out.push((k_str, v_str));
        proof {
            assert(v@.skip(j3 as int).drop_first() =~= v@.skip(j3 as int + 1));
            assert(header_views(out@) =~= header_views(old(out)@) + seq![
                (decode_utf8(kbv), decode_utf8(vbv)),
            ]);
        }
        Some(j3 + 1)
    } else {
        None
    }
}

/// Read the whole header object starting at `i`.
fn read_hdr_obj(v: &Vec<u8>, i: usize, out: &mut Vec<(String, String)>) -> (r: Option<usize>)
    requires
        i <= v@.len(),
    ensures
        match parse_hdr_obj(v@.skip(i as int)) {
            Some(p) => r matches Some(j) && i <= j <= v@.len() && header_views(final(out)@)
                == header_views(old(out)@) + p.0 && v@.skip(j as int) == p.1,
            None => r is None,
        },
{
    if i >= v.len() || v[i] != 0x7b {
        proof {
            if i < v@.len() {
                assert(v@.skip(i as int)[0] == v@[i as int]);
            }
        }
        return None;
    }
    proof {
        assert(v@.skip(i as int)[0] == v@[i as int]);
        assert(v@.skip(i as int).drop_first() =~= v@.skip(i as int + 1));
    }
    let t = skip_ws(v, i + 1);
    if t < v.len() && v[t] == 0x7d {
        proof {
            assert(v@.skip(t as int)[0] == v@[t as int]);
            assert(v@.skip(t as int).drop_first() =~= v@.skip(t as int + 1));
            assert(header_views(out@) =~= header_views(out@) + Seq::<(Seq<char>, Seq<char>)>::empty());
        }
        Some(t + 1)
    } else {
        proof {
            if t < v@.len() {
                assert(v@.skip(t as int)[0] == v@[t as int]);
            }
        }
        read_hdr_members(v, i + 1, out)
    }
}

fn is_key_headers(k: &Vec<u8>) -> (r: bool)
    ensures
        r == (k@ == key_headers()),
{
    proof {
        if k@ == key_headers() {
            assert(k@.len() == 7);
            assert(k@[0] == 0x68 && k@[1] == 0x65 && k@[2] == 0x61 && k@[3] == 0x64 && k@[4]
                == 0x65 && k@[5] == 0x72 && k@[6] == 0x73);
        }
    }
    if k.len() != 7 {
        return false;
    }
    let r = k[0] == 0x68 && k[1] == 0x65 && k[2] == 0x61 && k[3] == 0x64 && k[4] == 0x65 && k[5]
        == 0x72 && k[6] == 0x73;
    proof {
        if r {
            assert(k@ =~= key_headers());
        }
    }
    r
}

fn is_key_payload(k: &Vec<u8>) -> (r: bool)
    ensures
        r == (k@ == key_payload()),
{
    proof {
        if k@ == key_payload() {
            assert(k@.len() == 7);
            assert(k@[0] == 0x70 && k@[1] == 0x61 && k@[2] == 0x79 && k@[3] == 0x6c && k@[4]
                == 0x6f && k@[5] == 0x61 && k@[6] == 0x64);
        }
    }
    if k.len() != 7 {
        return false;
    }
    let r = k[0] == 0x70 && k[1] == 0x61 && k[2] == 0x79 && k[3] == 0x6c && k[4] == 0x6f && k[5]
        == 0x61 && k[6] == 0x64;
    proof {
        if r {
            assert(k@ =~= key_payload());
        }
    }
    r
}

pub open spec fn opt_headers_view(h: Option<Vec<(String, String)>>) -> Option<
    Seq<(Seq<char>, Seq<char>)>,
> {
    match h {
        Some(hs) => Some(header_views(hs@)),
        None => None,
    }
}

pub open spec fn opt_payload_view(p: Option<String>) -> Option<Seq<char>> {
    match p {
        Some(s) => Some(s@),
        None => None,
    }
}

/// Read the member list of the request object; `h` and `p` carry fields
/// already seen.
fn read_req_members(v: &Vec<u8>, i: usize, h: Option<Vec<(String, String)>>, p: Option<String>) -> (r:
    Option<(ServerRequest, usize)>)
    requires
        i <= v@.len(),
    ensures
        match parse_req_members(v@.skip(i as int), opt_headers_view(h), opt_payload_view(p)) {
            Some(q) => r matches Some(rq) && rq.0@ == q.0 && i <= rq.1 <= v@.len() && v@.skip(
                rq.1 as int,
            ) == q.1,
            None => r is None,
        },
    decreases v@.len() - i,
{
    let j0 = skip_ws(v, i);
    let mut kb: Vec<u8> = Vec::new();
    let jk = match read_string(v, j0, &mut kb) {
        Some(j) => j,
        None => {
            return None;
        },
    };
    let j1 = skip_ws(v, jk);
    if j1 >= v.len() || v[j1] != 0x3a {
        proof {
            if j1 < v@.len() {
                assert(v@.skip(j1 as int)[0] == v@[j1 as int]);
            }
        }
        return None;
    }
    proof {
        assert(v@.skip(j1 as int)[0] == v@[j1 as int]);
        assert(v@.skip(j1 as int).drop_first() =~= v@.skip(j1 as int + 1));
    }
    let j2 = skip_ws(v, j1 + 1);
    if is_key_headers(&kb) {
        match h {
            Some(_) => None,
            None => {
                let mut hs: Vec<(String, String)> = Vec::new();
                let jh = match read_hdr_obj(v, j2, &mut hs) {
                    Some(j) => j,
                    None => {
                        return None;
                    },
                };
                proof {
                    assert(header_views(Seq::<(String, String)>::empty())
                        =~= Seq::<(Seq<char>, Seq<char>)>::empty());
                }
                let j3 = skip_ws(v, jh);
                if j3 >= v.len() {
                    return None;
                }
                let c = v[j3];
                proof {
                    assert(v@.skip(j3 as int)[0] == v@[j3 as int]);
                    assert(v@.skip(j3 as int).drop_first() =~= v@.skip(j3 as int + 1));
                }
                if c == 0x2c {
                    read_req_members(v, j3 + 1, Some(hs), p)
                } else if c == 0x7d {
                    match p {
                        Some(pay) => {
                            let req = ServerRequest { headers: hs, payload: pay };
                            proof {
                                match parse_req_members(
                                    v@.skip(i as int),
                                    opt_headers_view(None),
                                    opt_payload_view(Some(pay)),
                                ) {
                                    Some(q) => {
                                        assert(req@ =~= q.0);
                                    },
                                    None => {},
                                }
                            }
                            Some((req, j3 + 1))
                        },
                        None => None,
                    }
                } else {
                    None
                }
            },
        }
    } else if is_key_payload(&kb) {
        match p {
            Some(_) => None,
            None => {
                let mut vb: Vec<u8> = Vec::new();
                let jv = match read_string(v, j2, &mut vb) {
                    Some(j) => j,
                    None => {
                        return None;
                    },
                };
                let ghost vbv = vb@;
                let pay = match crate::interop::bytes_to_string(vb) {
                    Some(s) => s,
                    None => {
                        return None;
                    },
                };
                let j3 = skip_ws(v, jv);
                if j3 >= v.len() {
                    return None;
                }
                let c = v[j3];
                proof {
                    assert(v@.skip(j3 as int)[0] == v@[j3 as int]);
                    assert(v@.skip(j3 as int).drop_first() =~= v@.skip(j3 as int + 1));
                }
                if c == 0x2c {
                    read_req_members(v, j3 + 1, h, Some(pay))
                } else if c == 0x7d {
                    match h {
                        Some(hs) => {
                            let req = ServerRequest { headers: hs, payload: pay };
                            proof {
                                match parse_req_members(
                                    v@.skip(i as int),
                                    opt_headers_view(h),
                                    opt_payload_view(None),
                                ) {
                                    Some(q) => {
                                        assert(req@ =~= q.0);
                                    },
                                    None => {},
                                }
                            }
                            Some((req, j3 + 1))
                        },
                        None => None,
                    }
                } else {
                    None
                }
            },
        }
    } else {
        None
    }
}

/// Deserialize a request envelope. Returns `DecodeError` exactly on the byte
/// sequences that are not structurally valid envelopes.
pub fn decode_request(bytes: &Vec<u8>) -> (r: Result<ServerRequest, DecodeError>)
    ensures
        r matches Ok(req) ==> parse_request(bytes@) == Some(req@),
        r is Err <==> parse_request(bytes@) is None,
{
    proof {
        assert(bytes@.skip(0) =~= bytes@);
    }
    let t = skip_ws(bytes, 0);
    if t >= bytes.len() || bytes[t] != 0x7b {
        proof {
            if t < bytes@.len() {
                assert(bytes@.skip(t as int)[0] == bytes@[t as int]);
            }
        }
        return Err(DecodeError);
    }
    proof {
        assert(bytes@.skip(t as int)[0] == bytes@[t as int]);
        assert(bytes@.skip(t as int).drop_first() =~= bytes@.skip(t as int + 1));
    }
    match read_req_members(bytes, t + 1, None, None) {
        None => Err(DecodeError),
        Some((req, j)) => {
            let e = skip_ws(bytes, j);
            if e < bytes.len() {
                Err(DecodeError)
            } else {
                proof {
                    assert(bytes@.skip(e as int).len() == bytes@.len() - e);
                }
                Ok(req)
            }
        },
    }
}

// ---------------------------------------------------------------------------
// Round trip: parsing a canonical serialization gives back the value
// ---------------------------------------------------------------------------

/// `spec_ws` consumes nothing when the input does not begin with whitespace.
proof fn lemma_ws_id(s: Seq<u8>)
    requires
        s.len() == 0 || !is_ws(s[0]),
    ensures
        spec_ws(s) == s,
{
}

/// Escaped content parses back to the content, up to the closing quote.
#[verifier::rlimit(60)]
proof fn lemma_str_body_of_escape(b: Seq<u8>, rest: Seq<u8>)
    ensures
        parse_str_body(escape_bytes(b) + (seq![0x22u8] + rest)) == Some((b, rest)),
    decreases b.len(),
{
    let s = escape_bytes(b) + (seq![0x22u8] + rest);
    if b.len() == 0 {
        assert(s =~= seq![0x22u8] + rest);
        assert(s[0] == 0x22);
        assert(s.drop_first() =~= rest);
        assert(parse_str_body(s) == Some((Seq::<u8>::empty(), rest)));
        assert(b =~= Seq::<u8>::empty());
    } else {
        let x = b[0];
        let b2 = b.drop_first();
        let tail = escape_bytes(b2) + (seq![0x22u8] + rest);
        assert(s =~= esc_byte(x) + tail);
        lemma_str_body_of_escape(b2, rest);
        if x == 0x22 {
            assert(s.len() >= 2 && s[0] == 0x5c && s[1] == 0x22);
            assert(s.skip(2) =~= tail);
            assert(parse_str_body(s) == Some((seq![0x22u8] + b2, rest)));
            assert(seq![0x22u8] + b2 =~= b);
        } else if x == 0x5c {
            assert(s.len() >= 2 && s[0] == 0x5c && s[1] == 0x5c);
            assert(s.skip(2) =~= tail);
            assert(parse_str_body(s) == Some((seq![0x5cu8] + b2, rest)));
            assert(seq![0x5cu8] + b2 =~= b);
        } else if x < 0x20 {
            assert(s.len() >= 6);
            assert(s[0] == 0x5c && s[1] == 0x75 && s[2] == 0x30 && s[3] == 0x30);
            assert(s[4] == hex_digit(x / 16) && s[5] == hex_digit(x % 16));
            assert(esc_code(0x75u8) is None);
            assert(hex_val(0x30u8) == Some(0u8));
            assert(hex_val(hex_digit(x / 16)) == Some((x / 16) as u8));
            assert(hex_val(hex_digit(x % 16)) == Some((x % 16) as u8));
            let v = 0 * 4096 + 0 * 256 + (x / 16) * 16 + (x % 16);
            assert(v == x);
            assert(s.skip(6) =~= tail);
            assert(parse_str_body(s) == Some((seq![x] + b2, rest)));
            assert(seq![x] + b2 =~= b);
        } else {
            assert(s[0] == x);
            assert(s[0] != 0x22 && s[0] != 0x5c && s[0] >= 0x20);
            assert(s.drop_first() =~= tail);
            assert(parse_str_body(s) == Some((seq![x] + b2, rest)));
            assert(seq![x] + b2 =~= b);
        }
    }
}

/// A serialized string token parses back to its content bytes.
proof fn lemma_string_of_ser(b: Seq<u8>, rest: Seq<u8>)
    ensures
        parse_string(ser_string_bytes(b) + rest) == Some((b, rest)),
{
    let s = ser_string_bytes(b) + rest;
    assert(s[0] == 0x22);
    assert(s.drop_first() =~= escape_bytes(b) + (seq![0x22u8] + rest));
    lemma_str_body_of_escape(b, rest);
}

/// A serialized member list parses back to its pairs.
#[verifier::rlimit(60)]
proof fn lemma_hdr_members_of_ser(p: (Seq<char>, Seq<char>), t: Seq<(Seq<char>, Seq<char>)>, rest: Seq<u8>)
    ensures
        parse_hdr_members(ser_pair(p) + ser_members_rest(t) + (seq![0x7du8] + rest)) == Some(
            (seq![p] + t, rest),
        ),
    decreases t.len(),
{
    let s = ser_pair(p) + ser_members_rest(t) + (seq![0x7du8] + rest);
    let rest1 = seq![0x3au8] + ser_string(p.1) + ser_members_rest(t) + (seq![0x7du8] + rest);
    assert(s =~= ser_string_bytes(encode_utf8(p.0)) + rest1);
    assert(s.len() > 0 && s[0] == 0x22);
    lemma_ws_id(s);
    lemma_string_of_ser(encode_utf8(p.0), rest1);
    assert(parse_string(s) == Some((encode_utf8(p.0), rest1)));
    assert(valid_utf8(encode_utf8(p.0)));
    assert(decode_utf8(encode_utf8(p.0)) == p.0);
    assert(rest1[0] == 0x3a && !is_ws(0x3au8));
    lemma_ws_id(rest1);
    let rest2 = ser_members_rest(t) + (seq![0x7du8] + rest);
    assert(rest1.drop_first() =~= ser_string_bytes(encode_utf8(p.1)) + rest2);
    lemma_ws_id(rest1.drop_first());
    assert(rest1.drop_first()[0] == 0x22);
    lemma_string_of_ser(encode_utf8(p.1), rest2);
    assert(decode_utf8(encode_utf8(p.1)) == p.1);
    if t.len() == 0 {
        assert(rest2 =~= seq![0x7du8] + rest);
        assert(rest2[0] == 0x7d && !is_ws(0x7du8));
        lemma_ws_id(rest2);
        assert(rest2.drop_first() =~= rest);
        assert(parse_hdr_members(s) == Some((seq![p], rest)));
        assert(seq![p] =~= seq![p] + t);
    } else {
        let p2 = t[0];
        let t2 = t.drop_first();
        assert(ser_members_rest(t) =~= seq![0x2cu8] + ser_pair(p2) + ser_members_rest(t2));
        assert(rest2 =~= seq![0x2cu8] + (ser_pair(p2) + ser_members_rest(t2) + (seq![0x7du8]
            + rest)));
        assert(rest2[0] == 0x2c && !is_ws(0x2cu8));
        lemma_ws_id(rest2);
        assert(rest2.drop_first() =~= ser_pair(p2) + ser_members_rest(t2) + (seq![0x7du8] + rest));
        lemma_hdr_members_of_ser(p2, t2, rest);
        assert(parse_hdr_members(rest2.drop_first()) == Some((seq![p2] + t2, rest)));
        assert(parse_hdr_members(s) == Some((seq![p] + (seq![p2] + t2), rest)));
        assert(seq![p] + (seq![p2] + t2) =~= seq![p] + t);
    }
}

/// A serialized header object parses back to its pairs.
proof fn lemma_hdr_obj_of_ser(hs: Seq<(Seq<char>, Seq<char>)>, rest: Seq<u8>)
    ensures
        parse_hdr_obj(ser_headers(hs) + rest) == Some((hs, rest)),
{
    let s = ser_headers(hs) + rest;
    assert(s[0] == 0x7b);
    if hs.len() == 0 {
        assert(s.drop_first() =~= seq![0x7du8] + rest);
        lemma_ws_id(s.drop_first());
        assert(s.drop_first()[0] == 0x7d);
        assert(s.drop_first().drop_first() =~= rest);
        assert(parse_hdr_obj(s) == Some((Seq::<(Seq<char>, Seq<char>)>::empty(), rest)));
        assert(Seq::<(Seq<char>, Seq<char>)>::empty() =~= hs);
    } else {
        assert(s.drop_first() =~= ser_pair(hs[0]) + ser_members_rest(hs.drop_first()) + (seq![
            0x7du8,
        ] + rest));
        lemma_ws_id(s.drop_first());
        assert(s.drop_first()[0] == 0x22);
        lemma_hdr_members_of_ser(hs[0], hs.drop_first(), rest);
        assert(parse_hdr_members(s.drop_first()) == Some((seq![hs[0]] + hs.drop_first(), rest)));
        assert(seq![hs[0]] + hs.drop_first() =~= hs);
    }
}

/// The field names differ.
proof fn lemma_keys_distinct()
    ensures
        key_headers() != key_payload(),
{
    assert(key_headers()[0] == 0x68 && key_payload()[0] == 0x70);
}

/// Round trip: decoding the canonical serialization of any request model
/// gives back exactly that model. Headers keep their order; no
/// well-formedness condition is needed.
#[verifier::rlimit(60)]
pub proof fn lemma_request_round_trip(m: RequestModel)
    ensures
        parse_request(ser_request(m)) == Some(m),
{
    let s = ser_request(m);
    let rest1 = seq![0x3au8] + ser_headers(m.headers) + seq![0x2cu8] + ser_string_bytes(
        key_payload(),
    ) + seq![0x3au8] + ser_string(m.payload) + seq![0x7du8];
    assert(s[0] == 0x7b);
    lemma_ws_id(s);
    assert(s.drop_first() =~= ser_string_bytes(key_headers()) + rest1);
    let s1 = s.drop_first();
    lemma_ws_id(s1);
    assert(s1[0] == 0x22);
    lemma_string_of_ser(key_headers(), rest1);
    assert(parse_string(s1) == Some((key_headers(), rest1)));
    assert(rest1[0] == 0x3a);
    lemma_ws_id(rest1);
    let rest2 = seq![0x2cu8] + ser_string_bytes(key_payload()) + seq![0x3au8] + ser_string(
        m.payload,
    ) + seq![0x7du8];
    assert(rest1.drop_first() =~= ser_headers(m.headers) + rest2);
    lemma_ws_id(rest1.drop_first());
    assert(rest1.drop_first()[0] == 0x7b);
    lemma_hdr_obj_of_ser(m.headers, rest2);
    assert(parse_hdr_obj(rest1.drop_first()) == Some((m.headers, rest2)));
    assert(rest2[0] == 0x2c);
    lemma_ws_id(rest2);
    // second member: "payload": <string>
    let s2 = rest2.drop_first();
    let rest3 = seq![0x3au8] + ser_string(m.payload) + seq![0x7du8];
    assert(s2 =~= ser_string_bytes(key_payload()) + rest3);
    lemma_ws_id(s2);
    assert(s2[0] == 0x22);
    lemma_string_of_ser(key_payload(), rest3);
    assert(parse_string(s2) == Some((key_payload(), rest3)));
    lemma_keys_distinct();
    assert(rest3[0] == 0x3a);
    lemma_ws_id(rest3);
    let rest4 = seq![0x7du8];
    assert(rest3.drop_first() =~= ser_string_bytes(encode_utf8(m.payload)) + rest4);
    lemma_ws_id(rest3.drop_first());
    assert(rest3.drop_first()[0] == 0x22);
    lemma_string_of_ser(encode_utf8(m.payload), rest4);
    assert(valid_utf8(encode_utf8(m.payload)));
    assert(decode_utf8(encode_utf8(m.payload)) == m.payload);
    assert(rest4[0] == 0x7d);
    lemma_ws_id(rest4);
    assert(rest4.drop_first() =~= Seq::<u8>::empty());
    assert(parse_req_members(s2, Some(m.headers), None) matches Some(q2) && q2.0 =~= m && q2.1
        =~= Seq::<u8>::empty());
    assert(parse_req_members(s1, None, None) matches Some(q1) && q1.0 =~= m && q1.1 =~= Seq::<
        u8,
    >::empty());
    lemma_ws_id(Seq::<u8>::empty());
    assert(parse_request(s) == Some(m));
}

} // verus!
