//! The part tree of a message, and the walk that renders it as one text.
use vstd::prelude::*;
use crate::codec::{
    base64_encode, base64_round_trip, classify_encoding, decode, decoded, is_base64, encoding_named, eq_ignore_case, same_ignoring_case,
    RenderError, TransferEncoding,
};
use crate::render::{classify_content, kind_named, render, rendered, text_result, ContentKind};

verus! {

/// One header line: its name and its value, as bytes.
pub struct Header {
    pub name: Vec<u8>,
    pub value: Vec<u8>,
}

/// A node of a message: a leaf carries a body, a composite part carries its
/// subparts in order (and its body is not used).
pub struct MessagePart {
    pub headers: Vec<Header>,
    pub body: Vec<u8>,
    pub children: Vec<MessagePart>,
}

/// The bytes of `Content-Transfer-Encoding`.
pub open spec fn transfer_encoding_name() -> Seq<u8> {
    seq![67u8, 111, 110, 116, 101, 110, 116, 45, 84, 114, 97, 110, 115, 102, 101, 114, 45, 69, 110, 99, 111, 100, 105, 110, 103]
}

/// The bytes of `Content-Type`.
pub open spec fn content_type_name() -> Seq<u8> {
    seq![67u8, 111, 110, 116, 101, 110, 116, 45, 84, 121, 112, 101]
}

/// The value of the first header whose name is `name`, ignoring ASCII case.
pub open spec fn first_value(headers: Seq<Header>, name: Seq<u8>) -> Option<Seq<u8>>
    decreases headers.len(),
{
    if headers.len() == 0 {
        None
    } else if eq_ignore_case(headers[0].name@, name) {
        Some(headers[0].value@)
    } else {
        first_value(headers.drop_first(), name)
    }
}

/// The transfer encoding a part declares; none declared means none applied.
pub open spec fn part_encoding(p: MessagePart) -> TransferEncoding {
    match first_value(p.headers@, transfer_encoding_name()) {
        Some(v) => encoding_named(v),
        None => TransferEncoding::Identity,
    }
}

/// The content kind a part declares; none declared means plain.
pub open spec fn part_kind(p: MessagePart) -> ContentKind {
    match first_value(p.headers@, content_type_name()) {
        Some(v) => kind_named(v),
        None => ContentKind::PlainOrOther,
    }
}

/// A leaf's text: its body decoded, then rendered.
pub open spec fn leaf_text(p: MessagePart) -> Result<Seq<char>, RenderError> {
    match decoded(p.body@, part_encoding(p)) {
        Ok(d) => Ok(rendered(d, part_kind(p))),
        Err(e) => Err(e),
    }
}

/// A part's text: a leaf's own, or the texts of the subparts one after the
/// other, failing with the first subpart that fails.
pub open spec fn part_text(p: MessagePart) -> Result<Seq<char>, RenderError>
    decreases p, 1int, 0int,
{
    if p.children.len() == 0 {
        leaf_text(p)
    } else {
        children_text(p, p.children.len() as int)
    }
}

/// The joined texts of the first `n` subparts of `p`.
pub open spec fn children_text(p: MessagePart, n: int) -> Result<Seq<char>, RenderError>
    decreases p, 0int, n,
{
    if n <= 0 || n > p.children.len() {
        Ok(seq![])
    } else {
        match children_text(p, n - 1) {
            Err(e) => Err(e),
            Ok(front) => match part_text(p.children@[n - 1]) {
                Err(e) => Err(e),
                Ok(last) => Ok(front + last),
            },
        }
    }
}

/// Once the first `k` subparts fail to render, so do the first `n` for
/// every `n` from `k` on.
pub proof fn lemma_failure_persists(p: MessagePart, k: int, n: int)
    requires
        0 <= k <= n <= p.children.len(),
        children_text(p, k) is Err,
    ensures
        children_text(p, n) == children_text(p, k),
    decreases n - k,
{
    if n > k {
        lemma_failure_persists(p, k, n - 1);
    }
}

/// Finds the value of the first header named `name`, ignoring ASCII case.
pub fn first_header_value<'a>(headers: &'a Vec<Header>, name: &[u8]) -> (r: Option<&'a Vec<u8>>)
    ensures
        match r {
            Some(v) => first_value(headers@, name@) == Some(v@),
            None => first_value(headers@, name@) is None,
        },
{
    let mut i: usize = 0;
    assert(headers@.subrange(0, headers@.len() as int) =~= headers@);
    while i < headers.len()
        invariant
            i <= headers.len(),
            first_value(headers@, name@) == first_value(headers@.subrange(i as int, headers@.len() as int), name@),
        decreases headers.len() - i,
    {
        let ghost rest = headers@.subrange(i as int, headers@.len() as int);
        assert(rest.drop_first() =~= headers@.subrange(i + 1, headers@.len() as int));
        if same_ignoring_case(headers[i].name.as_slice(), name) {
            return Some(&headers[i].value);
        }
        i += 1;
    }
    assert(headers@.subrange(i as int, headers@.len() as int).len() == 0);
    None
}

/// The transfer encoding that a part declares.
pub fn encoding_of(part: &MessagePart) -> (r: TransferEncoding)
    ensures
        r == part_encoding(*part),
{
    let name: Vec<u8> = vec![67u8, 111, 110, 116, 101, 110, 116, 45, 84, 114, 97, 110, 115, 102, 101, 114, 45, 69, 110, 99, 111, 100, 105, 110, 103];
    assert(name@ =~= transfer_encoding_name());
    match first_header_value(&part.headers, name.as_slice()) {
        Some(v) => classify_encoding(v.as_slice()),
        None => TransferEncoding::Identity,
    }
}

/// The content kind that a part declares.
pub fn kind_of(part: &MessagePart) -> (r: ContentKind)
    ensures
        r == part_kind(*part),
{
    let name: Vec<u8> = vec![67u8, 111, 110, 116, 101, 110, 116, 45, 84, 121, 112, 101];
    assert(name@ =~= content_type_name());
    match first_header_value(&part.headers, name.as_slice()) {
        Some(v) => classify_content(v.as_slice()),
        None => ContentKind::PlainOrOther,
    }
}

/// Renders a part tree depth first: a leaf is decoded and rendered, a
/// composite part is the texts of its subparts joined in order with nothing
/// between them. The first failure ends the walk.
pub fn render_part(part: &MessagePart) -> (r: Result<String, RenderError>)
    ensures
        text_result(r) == part_text(*part),
    decreases part,
{
    if part.children.len() == 0 {
        let encoding = encoding_of(part);
        let kind = kind_of(part);
        match decode(part.body.as_slice(), encoding) {
            Ok(bytes) => Ok(render(bytes.as_slice(), kind)),
            Err(e) => Err(e),
        }
    } else {
        let mut out = String::new();
        let mut i: usize = 0;
        while i < part.children.len()
            invariant
                i <= part.children.len(),
                children_text(*part, i as int) == Ok::<Seq<char>, RenderError>(out@),
            decreases part.children.len() - i,
        {
            match render_part(&part.children[i]) {
                Ok(text) => {
                    out.append(text.as_str());
                },
                Err(e) => {
                    proof {
                        lemma_failure_persists(*part, i + 1, part.children.len() as int);
                    }
                    return Err(e);
                },
            }
            i += 1;
        }
        Ok(out)
    }
}


#[verifier::external_type_specification]
#[verifier::external_body]
pub struct ExParsedMail<'a>(mailparse::ParsedMail<'a>);

#[verifier::external_type_specification]
#[verifier::external_body]
pub struct ExMailParseError(mailparse::MailParseError);

/// The part tree that mailparse builds from raw message bytes, if it can,
/// read as headers, bodies as written, and subparts.
pub uninterp spec fn parsed_of(raw: Seq<u8>) -> Option<MessagePart>;

/// Relies on mailparse's `ParsedMail`: each header as `get_key` / `get_value`
/// gives it, the body exactly as written (`get_body_encoded`, then
/// `get_raw`), and the subparts in order.
#[verifier::external_body]
fn part_from_parsed(p: &mailparse::ParsedMail) -> MessagePart {
    let body = match p.get_body_encoded() {
        mailparse::body::Body::Base64(b) | mailparse::body::Body::QuotedPrintable(b) => b.get_raw().to_vec(),
        mailparse::body::Body::SevenBit(b) | mailparse::body::Body::EightBit(b) => b.get_raw().to_vec(),
        mailparse::body::Body::Binary(b) => b.get_raw().to_vec(),
    };
    let headers = p.headers.iter().map(|h| Header { name: h.get_key().into_bytes(), value: h.get_value().into_bytes() });
    let children = p.subparts.iter().map(|c| part_from_parsed(c));
    MessagePart { headers: headers.collect(), body, children: children.collect() }
}

/// Relies on mailparse::parse_mail: the part tree depends on the raw bytes alone.
#[verifier::external_body]
fn parse_mail_tree(raw: &[u8]) -> (r: Result<MessagePart, mailparse::MailParseError>)
    ensures
        match r {
            Ok(p) => parsed_of(raw@) == Some(p),
            Err(_) => parsed_of(raw@) is None,
        },
{
    match mailparse::parse_mail(raw) {
        Ok(m) => Ok(part_from_parsed(&m)),
        Err(e) => Err(e),
    }
}

/// The text of a raw message: its part tree rendered, or `Unparsable`.
pub open spec fn message_text(raw: Seq<u8>) -> Result<Seq<char>, RenderError> {
    match parsed_of(raw) {
        Some(p) => part_text(p),
        None => Err(RenderError::Unparsable),
    }
}

/// Parses raw message bytes into a part tree.
pub fn parse_message(raw: &[u8]) -> (r: Result<MessagePart, RenderError>)
    ensures
        match r {
            Ok(p) => parsed_of(raw@) == Some(p),
            Err(e) => parsed_of(raw@) is None && e == RenderError::Unparsable,
        },
{
    match parse_mail_tree(raw) {
        Ok(p) => Ok(p),
        Err(_) => Err(RenderError::Unparsable),
    }
}

/// Renders a raw message as one display text.
pub fn render_message(raw: &[u8]) -> (r: Result<String, RenderError>)
    ensures
        text_result(r) == message_text(raw@),
{
    match parse_message(raw) {
        Ok(part) => render_part(&part),
        Err(e) => Err(e),
    }
}

/// A composite part with three subparts renders as their three texts joined
/// with nothing between them, and fails exactly when one of them fails.
pub proof fn composite_text_is_concatenation(p: MessagePart)
    requires
        p.children.len() == 3,
    ensures
        (part_text(p.children@[0]) is Ok && part_text(p.children@[1]) is Ok && part_text(p.children@[2]) is Ok)
            ==> part_text(p) == Ok::<Seq<char>, RenderError>(
                part_text(p.children@[0])->Ok_0 + part_text(p.children@[1])->Ok_0 + part_text(p.children@[2])->Ok_0,
            ),
        (part_text(p.children@[0]) is Err || part_text(p.children@[1]) is Err || part_text(p.children@[2]) is Err)
            ==> part_text(p) is Err,
{
    let a = part_text(p.children@[0]);
    let b = part_text(p.children@[1]);
    let c = part_text(p.children@[2]);
    assert(part_text(p) == children_text(p, 3));
    assert(children_text(p, 0) == Ok::<Seq<char>, RenderError>(seq![]));
    assert(children_text(p, 1) == match a {
        Ok(x) => Ok::<Seq<char>, RenderError>(seq![] + x),
        Err(e) => Err(e),
    });
    assert(children_text(p, 2) == match children_text(p, 1) {
        Ok(x) => match b {
            Ok(y) => Ok::<Seq<char>, RenderError>(x + y),
            Err(e) => Err(e),
        },
        Err(e) => Err(e),
    });
    assert(children_text(p, 3) == match children_text(p, 2) {
        Ok(x) => match c {
            Ok(y) => Ok::<Seq<char>, RenderError>(x + y),
            Err(e) => Err(e),
        },
        Err(e) => Err(e),
    });
    if a is Ok {
        assert(seq![] + a->Ok_0 =~= a->Ok_0);
    }
}

/// A part fails to render as soon as any one of its subparts does: no
/// partial text is returned.
pub proof fn failing_subpart_fails_part(p: MessagePart, i: int)
    requires
        0 <= i < p.children.len(),
        part_text(p.children@[i]) is Err,
    ensures
        part_text(p) is Err,
{
    assert(children_text(p, i + 1) is Err);
    lemma_failure_persists(p, i + 1, p.children.len() as int);
}

/// A leaf whose body decodes always renders, whatever its content kind:
/// markup that cannot be laid out degrades instead of failing.
pub proof fn decodable_leaf_renders(p: MessagePart)
    requires
        p.children.len() == 0,
        decoded(p.body@, part_encoding(p)) is Ok,
    ensures
        part_text(p) == Ok::<Seq<char>, RenderError>(
            rendered(decoded(p.body@, part_encoding(p))->Ok_0, part_kind(p)),
        ),
{
}

/// A leaf that declares base64 and holds the encoding of some bytes renders
/// exactly as those bytes do: the body is decoded once, back to them.
pub proof fn base64_leaf_renders_its_bytes(p: MessagePart, d: Seq<u8>)
    requires
        p.children.len() == 0,
        part_encoding(p) == TransferEncoding::Base64,
        p.body@ == base64_encode(d),
    ensures
        part_text(p) == Ok::<Seq<char>, RenderError>(rendered(d, part_kind(p))),
{
    base64_round_trip(d);
}

/// A leaf that declares base64 but whose body is no base64 encoding fails
/// with `Malformed`, whatever its content kind.
pub proof fn malformed_base64_leaf_fails(p: MessagePart)
    requires
        p.children.len() == 0,
        part_encoding(p) == TransferEncoding::Base64,
        !is_base64(p.body@),
    ensures
        part_text(p) == Err::<Seq<char>, RenderError>(RenderError::Malformed),
{
}

} // verus!
