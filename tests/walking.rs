use base64::Engine;
use mail_reader::codec::RenderError;
use mail_reader::message::{parse_message, render_message, render_part, Header, MessagePart};

fn header(name: &str, value: &str) -> Header {
    Header { name: name.as_bytes().to_vec(), value: value.as_bytes().to_vec() }
}

fn leaf(headers: Vec<Header>, body: &[u8]) -> MessagePart {
    MessagePart { headers, body: body.to_vec(), children: Vec::new() }
}

fn plain(body: &str) -> MessagePart {
    leaf(vec![header("Content-Type", "text/plain")], body.as_bytes())
}

fn composite(children: Vec<MessagePart>) -> MessagePart {
    MessagePart { headers: vec![header("Content-Type", "multipart/mixed")], body: Vec::new(), children }
}

#[test]
fn quoted_printable_message_renders_cafe() {
    let raw = b"Content-Type: text/plain\r\nContent-Transfer-Encoding: quoted-printable\r\n\r\nCaf=C3=A9";
    assert_eq!(render_message(raw), Ok("Café".to_string()));
}

#[test]
fn two_plain_subparts_render_joined() {
    let part = composite(vec![plain("Hello "), plain("World")]);
    assert_eq!(render_part(&part), Ok("Hello World".to_string()));
}

#[test]
fn multipart_message_joins_subparts_in_order() {
    let raw = b"Content-Type: multipart/mixed; boundary=\"XYZ\"\r\n\r\n--XYZ\r\nContent-Type: text/plain\r\n\r\nHello \r\n--XYZ\r\nContent-Type: text/plain\r\n\r\nWorld\r\n--XYZ--\r\n";
    let part = parse_message(raw).unwrap();
    assert_eq!(part.children.len(), 2);
    assert_eq!(part.children[0].body, b"Hello \r\n".to_vec());
    assert_eq!(render_message(raw), Ok("Hello \r\nWorld\r\n".to_string()));
}

#[test]
fn three_subparts_concatenate_without_separator() {
    let a = plain("one");
    let b = leaf(vec![header("content-transfer-encoding", "BASE64")], b"dHdv");
    let c = leaf(vec![header("Content-Transfer-Encoding", "quoted-printable")], b"thr=65e");
    let expected = [render_part(&a).unwrap(), render_part(&b).unwrap(), render_part(&c).unwrap()].concat();
    assert_eq!(expected, "onetwothree");
    assert_eq!(render_part(&composite(vec![a, b, c])), Ok(expected));
}

#[test]
fn nested_parts_render_depth_first() {
    let inner = composite(vec![plain("b"), plain("c")]);
    let part = composite(vec![plain("a"), inner, plain("d")]);
    assert_eq!(render_part(&part), Ok("abcd".to_string()));
}

#[test]
fn base64_html_leaf_keeps_text_within_width() {
    let words: Vec<String> = (0..60).map(|i| format!("word{}", i)).collect();
    let html = format!("<html><body><p>{}</p><p>Tail <i>end</i></p></body></html>", words.join(" "));
    let body = base64::engine::general_purpose::STANDARD.encode(html.as_bytes());
    let part = leaf(
        vec![header("Content-Type", "text/html; charset=utf-8"), header("Content-Transfer-Encoding", "base64")],
        body.as_bytes(),
    );
    let text = render_part(&part).unwrap();
    for w in &words {
        assert!(text.contains(w.as_str()));
    }
    assert!(text.contains("Tail"));
    assert!(text.contains("end"));
    assert!(!text.contains("<p>"));
    for line in text.lines() {
        assert!(line.chars().count() <= 80);
    }
}

#[test]
fn malformed_base64_fails_and_others_still_render() {
    let bad = b"Content-Type: text/plain\r\nContent-Transfer-Encoding: base64\r\n\r\n!!not base64!!";
    assert_eq!(render_message(bad), Err(RenderError::Malformed));
    let good = b"Content-Type: text/plain\r\n\r\nstill fine";
    assert_eq!(render_message(good), Ok("still fine".to_string()));
}

#[test]
fn failing_subpart_fails_the_whole_message() {
    let part = composite(vec![
        plain("kept?"),
        leaf(vec![header("Content-Transfer-Encoding", "base64")], b"%%%"),
        plain("after"),
    ]);
    assert_eq!(render_part(&part), Err(RenderError::Malformed));
}

#[test]
fn first_matching_header_wins() {
    let part = leaf(
        vec![header("CONTENT-TRANSFER-ENCODING", "quoted-printable"), header("Content-Transfer-Encoding", "base64")],
        b"a=3Db",
    );
    assert_eq!(render_part(&part), Ok("a=b".to_string()));
}

#[test]
fn missing_headers_mean_plain_identity() {
    assert_eq!(render_part(&leaf(Vec::new(), b"<b>x</b>=41")), Ok("<b>x</b>=41".to_string()));
}

#[test]
fn empty_leaf_renders_empty() {
    assert_eq!(render_part(&leaf(Vec::new(), b"")), Ok(String::new()));
}
