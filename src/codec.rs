//! Transfer encodings: classifying a header value and undoing the encoding.
use vstd::prelude::*;
use vstd::arithmetic::div_mod::{lemma_div_denominator, lemma_fundamental_div_mod};

verus! {

/// The transfer encoding that a part declares for its body.
#[derive(Clone, Copy, Debug, PartialEq, Eq, Structural)]
pub enum TransferEncoding {
    Base64,
    QuotedPrintable,
    Identity,
}

/// Why a message could not be turned into text.
#[derive(Clone, Copy, Debug, PartialEq, Eq, Structural)]
pub enum RenderError {
    /// A body does not follow its declared transfer encoding.
    Malformed,
    /// The raw bytes could not be parsed into a part tree.
    Unparsable,
}

/// ASCII upper-case letters map to lower case; every other byte stays.
pub open spec fn lower_byte(c: u8) -> u8 {
    if 65 <= c && c <= 90 {
        (c + 32) as u8
    } else {
        c
    }
}

/// Byte strings that are equal once ASCII case is ignored.
pub open spec fn eq_ignore_case(a: Seq<u8>, b: Seq<u8>) -> bool {
    &&& a.len() == b.len()
    &&& forall|i: int| 0 <= i < a.len() ==> lower_byte(#[trigger] a[i]) == lower_byte(b[i])
}

/// `needle` occurs in `hay` at `start`, ignoring ASCII case.
pub open spec fn occurs_at(hay: Seq<u8>, needle: Seq<u8>, start: int) -> bool {
    &&& 0 <= start
    &&& start + needle.len() <= hay.len()
    &&& eq_ignore_case(hay.subrange(start, start + needle.len()), needle)
}

/// `needle` occurs somewhere in `hay`, ignoring ASCII case.
pub open spec fn contains_ignore_case(hay: Seq<u8>, needle: Seq<u8>) -> bool {
    exists|start: int| occurs_at(hay, needle, start)
}

/// The bytes of `base64`.
pub open spec fn base64_label() -> Seq<u8> {
    seq![98u8, 97, 115, 101, 54, 52]
}

/// The bytes of `quoted-printable`.
pub open spec fn quoted_printable_label() -> Seq<u8> {
    seq![113u8, 117, 111, 116, 101, 100, 45, 112, 114, 105, 110, 116, 97, 98, 108, 101]
}

/// The encoding that a `Content-Transfer-Encoding` value names; anything
/// unrecognised means the body is used as it stands.
pub open spec fn encoding_named(value: Seq<u8>) -> TransferEncoding {
    if eq_ignore_case(value, base64_label()) {
        TransferEncoding::Base64
    } else if eq_ignore_case(value, quoted_printable_label()) {
        TransferEncoding::QuotedPrintable
    } else {
        TransferEncoding::Identity
    }
}

pub fn lower_ascii(c: u8) -> (r: u8)
    ensures
        r == lower_byte(c),
{
    if 65 <= c && c <= 90 {
        c + 32
    } else {
        c
    }
}

/// Compares `needle` with the bytes of `hay` from `start` on, ignoring ASCII case.
pub fn matches_at(hay: &[u8], needle: &[u8], start: usize) -> (r: bool)
    ensures
        r == occurs_at(hay@, needle@, start as int),
{
    if start > hay.len() || needle.len() > hay.len() - start {
        return false;
    }
    let mut i: usize = 0;
    while i < needle.len()
        invariant
            start + needle.len() <= hay.len(),
            i <= needle.len(),
            forall|k: int|
                0 <= k < i ==> lower_byte(#[trigger] hay@[start + k]) == lower_byte(needle@[k]),
        decreases needle.len() - i,
    {
        if lower_ascii(hay[start + i]) != lower_ascii(needle[i]) {
            assert(hay@.subrange(start as int, start + needle.len())[i as int] == hay@[start + i]);
            return false;
        }
        i += 1;
    }
    assert forall|k: int| 0 <= k < needle@.len() implies lower_byte(
        #[trigger] hay@.subrange(start as int, start + needle.len())[k],
    ) == lower_byte(needle@[k]) by {
        assert(hay@.subrange(start as int, start + needle.len())[k] == hay@[start + k]);
    }
    true
}

/// Equality of two byte strings up to ASCII case.
pub fn same_ignoring_case(a: &[u8], b: &[u8]) -> (r: bool)
    ensures
        r == eq_ignore_case(a@, b@),
{
    if a.len() != b.len() {
        return false;
    }
    let r = matches_at(a, b, 0);
    assert(a@.subrange(0, b@.len() as int) =~= a@);
    r
}

/// Whether `needle` occurs anywhere in `hay`, ignoring ASCII case.
pub fn contains_ignoring_case(hay: &[u8], needle: &[u8]) -> (r: bool)
    ensures
        r == contains_ignore_case(hay@, needle@),
{
    if needle.len() > hay.len() {
        return false;
    }
    let last = hay.len() - needle.len();
    let mut start: usize = 0;
    while start <= last
        invariant
            last == hay.len() - needle.len(),
            needle.len() <= hay.len(),
            forall|s: int| 0 <= s < start ==> !#[trigger] occurs_at(hay@, needle@, s),
        decreases last + 1 - start,
    {
        if matches_at(hay, needle, start) {
            return true;
        }
        start += 1;
    }
    false
}

/// Reads a `Content-Transfer-Encoding` value.
pub fn classify_encoding(value: &[u8]) -> (r: TransferEncoding)
    ensures
        r == encoding_named(value@),
{
    let b64: Vec<u8> = vec![98u8, 97, 115, 101, 54, 52];
    let qp: Vec<u8> = vec![113u8, 117, 111, 116, 101, 100, 45, 112, 114, 105, 110, 116, 97, 98, 108, 101];
    assert(b64@ =~= base64_label());
    assert(qp@ =~= quoted_printable_label());
    if same_ignoring_case(value, b64.as_slice()) {
        TransferEncoding::Base64
    } else if same_ignoring_case(value, qp.as_slice()) {
        TransferEncoding::QuotedPrintable
    } else {
        TransferEncoding::Identity
    }
}


/// The character of the standard base64 alphabet for a six-bit value.
pub open spec fn base64_digit(v: int) -> u8 {
    if v < 26 {
        (65 + v) as u8
    } else if v < 52 {
        (97 + v - 26) as u8
    } else if v < 62 {
        (48 + v - 52) as u8
    } else if v == 62 {
        43u8
    } else {
        47u8
    }
}

/// Standard base64 with `=` padding: each three bytes become four characters,
/// and a final one or two bytes are padded out to four.
pub open spec fn base64_encode(b: Seq<u8>) -> Seq<u8>
    decreases b.len(),
{
    if b.len() == 0 {
        seq![]
    } else if b.len() == 1 {
        let n = b[0] as int;
        seq![base64_digit(n / 4), base64_digit((n % 4) * 16), 61u8, 61u8]
    } else if b.len() == 2 {
        let n = b[0] as int * 256 + b[1] as int;
        seq![base64_digit(n / 1024), base64_digit((n / 16) % 64), base64_digit((n % 16) * 4), 61u8]
    } else {
        let n = b[0] as int * 65536 + b[1] as int * 256 + b[2] as int;
        seq![
            base64_digit(n / 262144),
            base64_digit((n / 4096) % 64),
            base64_digit((n / 64) % 64),
            base64_digit(n % 64),
        ] + base64_encode(b.subrange(3, b.len() as int))
    }
}

proof fn lemma_digit_injective(v: int, w: int)
    requires
        0 <= v < 64,
        0 <= w < 64,
        base64_digit(v) == base64_digit(w),
    ensures
        v == w,
{
}

proof fn lemma_digit_not_padding(v: int)
    requires
        0 <= v < 64,
    ensures
        base64_digit(v) != 61u8,
{
}

proof fn lemma_sextets(n: int, m: int)
    requires
        0 <= n < 16777216,
        0 <= m < 16777216,
        n / 262144 == m / 262144,
        (n / 4096) % 64 == (m / 4096) % 64,
        (n / 64) % 64 == (m / 64) % 64,
        n % 64 == m % 64,
    ensures
        n == m,
{
    lemma_fundamental_div_mod(n, 64);
    lemma_fundamental_div_mod(m, 64);
    lemma_fundamental_div_mod(n / 64, 64);
    lemma_fundamental_div_mod(m / 64, 64);
    lemma_fundamental_div_mod(n / 4096, 64);
    lemma_fundamental_div_mod(m / 4096, 64);
    lemma_div_denominator(n, 64, 64);
    lemma_div_denominator(m, 64, 64);
    lemma_div_denominator(n, 4096, 64);
    lemma_div_denominator(m, 4096, 64);
}

proof fn lemma_three_bytes(a0: u8, a1: u8, a2: u8, b0: u8, b1: u8, b2: u8)
    requires
        a0 as int * 65536 + a1 as int * 256 + a2 as int == b0 as int * 65536 + b1 as int * 256 + b2 as int,
    ensures
        a0 == b0 && a1 == b1 && a2 == b2,
{
}

proof fn lemma_full_group(a: Seq<u8>, b: Seq<u8>)
    requires
        a.len() >= 3,
        b.len() >= 3,
        base64_encode(a).subrange(0, 4) == base64_encode(b).subrange(0, 4),
    ensures
        a[0] == b[0] && a[1] == b[1] && a[2] == b[2],
{
    let n = a[0] as int * 65536 + a[1] as int * 256 + a[2] as int;
    let m = b[0] as int * 65536 + b[1] as int * 256 + b[2] as int;
    let ea = base64_encode(a);
    let eb = base64_encode(b);
    assert(ea[0] == eb[0] && ea[1] == eb[1] && ea[2] == eb[2] && ea[3] == eb[3]) by {
        assert(ea[0] == ea.subrange(0, 4)[0] && ea[1] == ea.subrange(0, 4)[1]);
        assert(ea[2] == ea.subrange(0, 4)[2] && ea[3] == ea.subrange(0, 4)[3]);
        assert(eb[0] == eb.subrange(0, 4)[0] && eb[1] == eb.subrange(0, 4)[1]);
        assert(eb[2] == eb.subrange(0, 4)[2] && eb[3] == eb.subrange(0, 4)[3]);
    }
    lemma_digit_injective(n / 262144, m / 262144);
    lemma_digit_injective((n / 4096) % 64, (m / 4096) % 64);
    lemma_digit_injective((n / 64) % 64, (m / 64) % 64);
    lemma_digit_injective(n % 64, m % 64);
    lemma_sextets(n, m);
    lemma_three_bytes(a[0], a[1], a[2], b[0], b[1], b[2]);
}

/// Different bytes never share a base64 encoding.
pub proof fn lemma_base64_encode_injective(a: Seq<u8>, b: Seq<u8>)
    requires
        base64_encode(a) == base64_encode(b),
    ensures
        a == b,
    decreases a.len(),
{
    let ea = base64_encode(a);
    if a.len() == 0 || b.len() == 0 {
        assert(a.len() == 0 && b.len() == 0) by {
            if a.len() > 0 {
                assert(ea.len() >= 4);
            }
            if b.len() > 0 {
                assert(base64_encode(b).len() >= 4);
            }
        }
        assert(a =~= b);
    } else {
        assert(ea.len() >= 4);
        if a.len() >= 3 && b.len() >= 3 {
            lemma_full_group(a, b);
            let ra = a.subrange(3, a.len() as int);
            let rb = b.subrange(3, b.len() as int);
            assert(base64_encode(ra) =~= ea.subrange(4, ea.len() as int));
            assert(base64_encode(rb) =~= ea.subrange(4, ea.len() as int));
            lemma_base64_encode_injective(ra, rb);
            assert forall|i: int| 0 <= i < a.len() implies a[i] == b[i] by {
                if i >= 3 {
                    assert(a[i] == ra[i - 3] && b[i] == rb[i - 3]);
                }
            }
            assert(a =~= b);
        } else {
            lemma_short_lengths(a, b);
            if a.len() == 1 {
                lemma_one_byte(a, b);
            } else {
                lemma_two_bytes(a, b);
            }
        }
    }
}

proof fn lemma_short_lengths(a: Seq<u8>, b: Seq<u8>)
    requires
        base64_encode(a) == base64_encode(b),
        a.len() > 0,
        b.len() > 0,
        a.len() < 3 || b.len() < 3,
    ensures
        a.len() == b.len() && a.len() < 3,
{
    let ea = base64_encode(a);
    if a.len() >= 3 {
        let n = a[0] as int * 65536 + a[1] as int * 256 + a[2] as int;
        lemma_digit_not_padding((n / 64) % 64);
        lemma_digit_not_padding(n % 64);
    }
    if b.len() >= 3 {
        let m = b[0] as int * 65536 + b[1] as int * 256 + b[2] as int;
        lemma_digit_not_padding((m / 64) % 64);
        lemma_digit_not_padding(m % 64);
    }
    if a.len() == 2 {
        lemma_digit_not_padding(((a[0] as int * 256 + a[1] as int) % 16) * 4);
    }
    if b.len() == 2 {
        lemma_digit_not_padding(((b[0] as int * 256 + b[1] as int) % 16) * 4);
    }
}

proof fn lemma_one_byte(a: Seq<u8>, b: Seq<u8>)
    requires
        base64_encode(a) == base64_encode(b),
        a.len() == 1,
        b.len() == 1,
    ensures
        a == b,
{
    let n = a[0] as int;
    let m = b[0] as int;
    lemma_digit_injective(n / 4, m / 4);
    lemma_digit_injective((n % 4) * 16, (m % 4) * 16);
    lemma_fundamental_div_mod(n, 4);
    lemma_fundamental_div_mod(m, 4);
    assert(a =~= b);
}

proof fn lemma_two_bytes(a: Seq<u8>, b: Seq<u8>)
    requires
        base64_encode(a) == base64_encode(b),
        a.len() == 2,
        b.len() == 2,
    ensures
        a == b,
{
    let n = a[0] as int * 256 + a[1] as int;
    let m = b[0] as int * 256 + b[1] as int;
    lemma_digit_injective(n / 1024, m / 1024);
    lemma_digit_injective((n / 16) % 64, (m / 16) % 64);
    lemma_digit_injective((n % 16) * 4, (m % 16) * 4);
    lemma_fundamental_div_mod(n, 16);
    lemma_fundamental_div_mod(m, 16);
    lemma_fundamental_div_mod(n / 16, 64);
    lemma_fundamental_div_mod(m / 16, 64);
    lemma_div_denominator(n, 16, 64);
    lemma_div_denominator(m, 16, 64);
    assert(n == m);
    lemma_three_bytes(0, a[0], a[1], 0, b[0], b[1]);
    assert(a =~= b);
}

/// Some byte string encodes to `text` in standard padded base64.
pub open spec fn is_base64(text: Seq<u8>) -> bool {
    exists|d: Seq<u8>| base64_encode(d) == text
}

/// The bytes that `text` is the base64 encoding of, if it is one; there is
/// at most one such byte string (`lemma_base64_encode_injective`).
pub open spec fn base64_decoded(text: Seq<u8>) -> Option<Seq<u8>> {
    if is_base64(text) {
        Some(choose|d: Seq<u8>| base64_encode(d) == text)
    } else {
        None
    }
}

/// Decoding the base64 encoding of any bytes gives those bytes back.
pub proof fn base64_round_trip(d: Seq<u8>)
    ensures
        base64_decoded(base64_encode(d)) == Some(d),
{
    let text = base64_encode(d);
    assert(is_base64(text));
    let c = choose|c: Seq<u8>| base64_encode(c) == text;
    lemma_base64_encode_injective(c, d);
}

/// What quoted_printable's robust decoder makes of `text`.
pub uninterp spec fn quoted_printable_decoded_of(text: Seq<u8>) -> Seq<u8>;

#[verifier::external_type_specification]
#[verifier::external_body]
pub struct ExBase64DecodeError(base64::DecodeError);

#[verifier::external_type_specification]
#[verifier::external_body]
pub struct ExQuotedPrintableError(quoted_printable::QuotedPrintableError);

/// Relies on base64's `general_purpose::STANDARD` engine: standard alphabet,
/// canonical `=` padding required, no trailing bits allowed, so it accepts
/// exactly the canonical encodings and returns the bytes they encode.
#[verifier::external_body]
fn base64_standard_decode(text: &[u8]) -> (r: Result<Vec<u8>, base64::DecodeError>)
    ensures
        r is Ok ==> base64_encode(r->Ok_0@) == text@,
        is_base64(text@) ==> r is Ok,
{
    base64::Engine::decode(&base64::engine::general_purpose::STANDARD, text)
}

/// Relies on quoted_printable::decode in `ParseMode::Robust`, which never
/// reports an error: stray or incomplete `=` sequences are kept as they stand.
#[verifier::external_body]
fn quoted_printable_robust_decode(text: &[u8]) -> (r: Result<Vec<u8>, quoted_printable::QuotedPrintableError>)
    ensures
        r is Ok,
        r is Ok ==> r->Ok_0@ == quoted_printable_decoded_of(text@),
{
    quoted_printable::decode(text, quoted_printable::ParseMode::Robust)
}

/// The bytes that a body holds once its transfer encoding is undone.
pub open spec fn decoded(body: Seq<u8>, encoding: TransferEncoding) -> Result<Seq<u8>, RenderError> {
    match encoding {
        TransferEncoding::Base64 => match base64_decoded(body) {
            Some(d) => Ok(d),
            None => Err(RenderError::Malformed),
        },
        TransferEncoding::QuotedPrintable => Ok(quoted_printable_decoded_of(body)),
        TransferEncoding::Identity => Ok(body),
    }
}

/// Undoes a body's transfer encoding. A base64 body decodes exactly when it
/// is a canonical encoding, and then encodes back to itself; a
/// quoted-printable body always decodes; any other body is returned as is.
pub fn decode(body: &[u8], encoding: TransferEncoding) -> (r: Result<Vec<u8>, RenderError>)
    ensures
        match r {
            Ok(v) => decoded(body@, encoding) == Ok::<Seq<u8>, RenderError>(v@),
            Err(e) => decoded(body@, encoding) == Err::<Seq<u8>, RenderError>(e),
        },
        encoding == TransferEncoding::Base64 ==> (r is Ok <==> is_base64(body@)),
        encoding == TransferEncoding::Base64 && r is Ok ==> base64_encode(r->Ok_0@) == body@,
        encoding == TransferEncoding::QuotedPrintable ==> r is Ok,
        encoding == TransferEncoding::Identity ==> r is Ok && r->Ok_0@ == body@,
{
    match encoding {
        TransferEncoding::Base64 => match base64_standard_decode(body) {
            Ok(v) => {
                proof {
                    base64_round_trip(v@);
                }
                Ok(v)
            },
            Err(_) => Err(RenderError::Malformed),
        },
        TransferEncoding::QuotedPrintable => match quoted_printable_robust_decode(body) {
            Ok(v) => Ok(v),
            Err(_) => Err(RenderError::Malformed),
        },
        TransferEncoding::Identity => Ok(vstd::slice::slice_to_vec(body)),
    }
}

} // verus!
