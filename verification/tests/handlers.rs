use base64::Engine;
use tarmac_guest::handlers::{http_reply, reverse_payload};

fn b64(text: &str) -> String {
    base64::engine::general_purpose::STANDARD.encode(text.as_bytes())
}

#[test]
fn reverse_payload_reverses_characters() {
    let out = reverse_payload(&b64("abcdef")).unwrap();
    assert_eq!(out, b64("fedcba"));
    let unicode = reverse_payload(&b64("ab✓c")).unwrap();
    assert_eq!(unicode, b64("c✓ba"));
}

#[test]
fn reverse_payload_involution() {
    for text in ["", "abcdef", "a man a plan a canal panama", "päliñdrome ✓"] {
        let original = b64(text);
        let once = reverse_payload(&original).unwrap();
        let twice = reverse_payload(&once).unwrap();
        assert_eq!(twice, original);
    }
}

#[test]
fn reverse_payload_rejects_invalid_input() {
    assert!(reverse_payload(&"*?!".to_string()).is_none());
    // valid base64, but not of UTF-8 text
    let not_text = base64::engine::general_purpose::STANDARD.encode([0xff, 0xfe, 0xfd]);
    assert!(reverse_payload(&not_text).is_none());
}

#[test]
fn http_reply_empty_payload_is_500() {
    let (code, body) = http_reply("");
    assert_eq!(code, 500);
    assert!(body.is_none());
}

#[test]
fn http_reply_decodes_base64_text() {
    let (code, body) = http_reply(&b64("hello from the embedder"));
    assert_eq!(code, 200);
    assert_eq!(body.unwrap(), "hello from the embedder");
}

#[test]
fn http_reply_rejects_undecodable_payload() {
    let (code, body) = http_reply("not base64 at all");
    assert_eq!(code, 400);
    assert!(body.is_none());
    let not_text = base64::engine::general_purpose::STANDARD.encode([0xc0, 0x80]);
    let (code2, body2) = http_reply(&not_text);
    assert_eq!(code2, 400);
    assert!(body2.is_none());
}
