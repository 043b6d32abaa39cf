//! Turning decoded body bytes into display text.
use vstd::prelude::*;
use vstd::utf8::{decode_utf8, valid_utf8};
use crate::codec::{contains_ignore_case, contains_ignoring_case, RenderError};

verus! {

/// Column width at which markup is laid out as text.
pub const WRAP_WIDTH: usize = 80;

/// Whether a body is markup to lay out, or text to show as it is.
#[derive(Clone, Copy, Debug, PartialEq, Eq, Structural)]
pub enum ContentKind {
    Html,
    PlainOrOther,
}

/// The bytes of `text/html`.
pub open spec fn html_label() -> Seq<u8> {
    seq![116u8, 101, 120, 116, 47, 104, 116, 109, 108]
}

/// A `Content-Type` value names markup when it contains `text/html` in any case.
pub open spec fn kind_named(value: Seq<u8>) -> ContentKind {
    if contains_ignore_case(value, html_label()) {
        ContentKind::Html
    } else {
        ContentKind::PlainOrOther
    }
}

/// Reads a `Content-Type` value.
pub fn classify_content(value: &[u8]) -> (r: ContentKind)
    ensures
        r == kind_named(value@),
{
    let html: Vec<u8> = vec![116u8, 101, 120, 116, 47, 104, 116, 109, 108];
    assert(html@ =~= html_label());
    if contains_ignoring_case(value, html.as_slice()) {
        ContentKind::Html
    } else {
        ContentKind::PlainOrOther
    }
}

/// The text that std's lossy UTF-8 conversion makes of some bytes.
pub uninterp spec fn lossy_text_of(bytes: Seq<u8>) -> Seq<char>;

/// What html2text's plain renderer lays out from markup at a width, if it can.
pub uninterp spec fn html_text_of(html: Seq<char>, width: nat) -> Option<Seq<char>>;

/// Relies on `String::from_utf8_lossy`: invalid sequences become U+FFFD, and
/// valid UTF-8 is decoded as it stands.
#[verifier::external_body]
fn utf8_lossy(bytes: &[u8]) -> (r: String)
    ensures
        r@ == lossy_text_of(bytes@),
        valid_utf8(bytes@) ==> r@ == decode_utf8(bytes@),
{
    String::from_utf8_lossy(bytes).into_owned()
}

#[verifier::external_type_specification]
#[verifier::external_body]
pub struct ExHtmlError(html2text::Error);

/// Relies on html2text::from_read: lays markup out as plain text at the given
/// width, or fails (for one, when the layout does not fit the width).
#[verifier::external_body]
fn html_from_read(html: &str, width: usize) -> (r: Result<String, html2text::Error>)
    ensures
        match r {
            Ok(t) => html_text_of(html@, width as nat) == Some(t@),
            Err(_) => html_text_of(html@, width as nat) is None,
        },
{
    html2text::from_read(html.as_bytes(), width)
}

/// The display text of decoded bytes of the given kind. Markup that cannot
/// be laid out degrades to the text as it stands, so rendering never fails.
pub open spec fn rendered(bytes: Seq<u8>, kind: ContentKind) -> Seq<char> {
    match kind {
        ContentKind::Html => match html_text_of(lossy_text_of(bytes), WRAP_WIDTH as nat) {
            Some(t) => t,
            None => lossy_text_of(bytes),
        },
        ContentKind::PlainOrOther => lossy_text_of(bytes),
    }
}

/// The view of a result that carries a `String`.
pub open spec fn text_result(r: Result<String, RenderError>) -> Result<Seq<char>, RenderError> {
    match r {
        Ok(s) => Ok(s@),
        Err(e) => Err(e),
    }
}

/// Renders decoded bytes: markup is laid out at `WRAP_WIDTH` columns (or,
/// where it cannot be, kept as text), other content is the bytes read as
/// UTF-8 with invalid sequences replaced.
pub fn render(bytes: &[u8], kind: ContentKind) -> (r: String)
    ensures
        r@ == rendered(bytes@, kind),
        kind == ContentKind::PlainOrOther && valid_utf8(bytes@) ==> r@ == decode_utf8(bytes@),
{
    let text = utf8_lossy(bytes);
    match kind {
        ContentKind::Html => match html_from_read(text.as_str(), WRAP_WIDTH) {
            Ok(t) => t,
            Err(_) => text,
        },
        ContentKind::PlainOrOther => text,
    }
}

} // verus!
