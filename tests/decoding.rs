use base64::Engine;
use mail_reader::codec::{classify_encoding, decode, RenderError, TransferEncoding};
use mail_reader::render::{classify_content, render, ContentKind};

fn b64(bytes: &[u8]) -> Vec<u8> {
    base64::engine::general_purpose::STANDARD.encode(bytes).into_bytes()
}

#[test]
fn base64_round_trips() {
    for bytes in [&b""[..], b"a", b"ab", b"abc", b"Hello, World!\x00\xff"] {
        let encoded = b64(bytes);
        let decoded = decode(&encoded, TransferEncoding::Base64).unwrap();
        assert_eq!(decoded, bytes.to_vec());
        assert_eq!(b64(&decoded), encoded);
    }
}

#[test]
fn base64_decodes_known_value() {
    assert_eq!(decode(b"SGVsbG8=", TransferEncoding::Base64), Ok(b"Hello".to_vec()));
}

#[test]
fn base64_rejects_bad_characters_and_padding() {
    assert_eq!(decode(b"SGVsbG8*", TransferEncoding::Base64), Err(RenderError::Malformed));
    assert_eq!(decode(b"SGVsbG8", TransferEncoding::Base64), Err(RenderError::Malformed));
    assert_eq!(decode(b"SGVsbG9=", TransferEncoding::Base64), Err(RenderError::Malformed));
}

#[test]
fn quoted_printable_round_trips() {
    for bytes in [&b"plain text"[..], b"caf\xc3\xa9 = 3", b"tab\there"] {
        let encoded = quoted_printable::encode(bytes);
        let decoded = decode(&encoded, TransferEncoding::QuotedPrintable).unwrap();
        assert_eq!(decoded, bytes.to_vec());
    }
}

#[test]
fn quoted_printable_soft_line_break_is_dropped() {
    let decoded = decode(b"Hello=\r\nWorld", TransferEncoding::QuotedPrintable).unwrap();
    assert_eq!(decoded, b"HelloWorld".to_vec());
}

#[test]
fn quoted_printable_tolerates_stray_equals() {
    assert_eq!(decode(b"hello world=", TransferEncoding::QuotedPrintable), Ok(b"hello world".to_vec()));
    assert_eq!(decode(b"hello world=x", TransferEncoding::QuotedPrintable), Ok(b"hello world=x".to_vec()));
    assert_eq!(decode(b"a=3Db", TransferEncoding::QuotedPrintable), Ok(b"a=b".to_vec()));
}

#[test]
fn identity_keeps_bytes() {
    assert_eq!(decode(b"Caf=C3=A9", TransferEncoding::Identity), Ok(b"Caf=C3=A9".to_vec()));
}

#[test]
fn encodings_are_classified_ignoring_case() {
    assert_eq!(classify_encoding(b"BASE64"), TransferEncoding::Base64);
    assert_eq!(classify_encoding(b"base64"), TransferEncoding::Base64);
    assert_eq!(classify_encoding(b"Quoted-Printable"), TransferEncoding::QuotedPrintable);
    assert_eq!(classify_encoding(b"7bit"), TransferEncoding::Identity);
    assert_eq!(classify_encoding(b""), TransferEncoding::Identity);
    assert_eq!(classify_encoding(b"base64 "), TransferEncoding::Identity);
}

#[test]
fn content_kinds_are_classified_by_substring() {
    assert_eq!(classify_content(b"TEXT/HTML; charset=utf-8"), ContentKind::Html);
    assert_eq!(classify_content(b"multipart/alternative; x=text/html"), ContentKind::Html);
    assert_eq!(classify_content(b"text/plain"), ContentKind::PlainOrOther);
    assert_eq!(classify_content(b"text/htm"), ContentKind::PlainOrOther);
}

#[test]
fn plain_text_is_read_lossily() {
    assert_eq!(render(b"Caf\xc3\xa9", ContentKind::PlainOrOther), "Café".to_string());
    assert_eq!(render(b"a\xffb", ContentKind::PlainOrOther), "a\u{FFFD}b".to_string());
}

#[test]
fn html_is_laid_out_as_text() {
    let text = render(b"<p>Hello <b>World</b></p>", ContentKind::Html);
    assert!(text.contains("Hello"));
    assert!(text.contains("World"));
    assert!(!text.contains('<'));
}

#[test]
fn malformed_markup_still_renders() {
    let text = render(b"<p>open <b>bold <i>both</p></div>\xff", ContentKind::Html);
    assert!(text.contains("open"));
    assert!(text.contains("both"));
}

#[test]
fn deeply_nested_markup_never_fails() {
    let html = format!("{}deep{}", "<blockquote>".repeat(60), "</blockquote>".repeat(60));
    let text = render(html.as_bytes(), ContentKind::Html);
    assert!(text.contains("deep"));
}
