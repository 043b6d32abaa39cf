//! Paging through a mailbox's UIDs and reading subjects out of header blocks.
use vstd::prelude::*;
use vstd::utf8::valid_utf8;
use crate::codec::{matches_at, occurs_at};

verus! {

/// How many messages one page lists.
pub const PAGE_SIZE: usize = 8;

/// The UIDs shown on a page: the `page`-th run of `PAGE_SIZE`, cut short at
/// the end of the list, and none past it.
pub open spec fn page_uids(uids: Seq<u32>, page: nat) -> Seq<u32> {
    let start = page * PAGE_SIZE as nat;
    if start >= uids.len() {
        seq![]
    } else if start + PAGE_SIZE as nat >= uids.len() {
        uids.subrange(start as int, uids.len() as int)
    } else {
        uids.subrange(start as int, start + PAGE_SIZE as int)
    }
}

/// The UIDs listed on page `page` (counted from zero). A page past the end
/// of the list is empty, which is no error.
pub fn page_of(uids: &Vec<u32>, page: usize) -> (r: Vec<u32>)
    ensures
        r@ == page_uids(uids@, page as nat),
        page * PAGE_SIZE >= uids.len() ==> r@.len() == 0,
{
    let mut out: Vec<u32> = Vec::new();
    if page > uids.len() / PAGE_SIZE {
        return out;
    }
    let start: usize = page * PAGE_SIZE;
    let end: usize = if uids.len() - start <= PAGE_SIZE { uids.len() } else { start + PAGE_SIZE };
    let mut i: usize = start;
    while i < end
        invariant
            start <= i <= end <= uids.len(),
            out@ == uids@.subrange(start as int, i as int),
        decreases end - i,
    {
        out.push(uids[i]);
        i += 1;
        assert(out@ =~= uids@.subrange(start as int, i as int));
    }
    out
}

/// Relies on `slice::sort_unstable`: the same items, in ascending order.
#[verifier::external_body]
fn sort_ascending(v: &mut Vec<u32>)
    ensures
        final(v)@.to_multiset() == old(v)@.to_multiset(),
        forall|i: int, j: int| 0 <= i < j < final(v)@.len() ==> final(v)@[i] <= final(v)@[j],
{
    v.sort_unstable();
}

/// Orders a mailbox's UIDs newest first: the same UIDs, highest first.
pub fn newest_first(uids: Vec<u32>) -> (r: Vec<u32>)
    ensures
        r@.to_multiset() == uids@.to_multiset(),
        forall|i: int, j: int| 0 <= i < j < r@.len() ==> r@[i] >= r@[j],
{
    let mut sorted = uids;
    sort_ascending(&mut sorted);
    let mut out: Vec<u32> = Vec::new();
    let mut k: usize = sorted.len();
    while k > 0
        invariant
            k <= sorted.len(),
            out@ == sorted@.subrange(k as int, sorted@.len() as int).reverse(),
        decreases k,
    {
        k -= 1;
        out.push(sorted[k]);
        assert(out@ =~= sorted@.subrange(k as int, sorted@.len() as int).reverse());
    }
    assert(sorted@.subrange(0, sorted@.len() as int) =~= sorted@);
    proof {
        sorted@.lemma_reverse_to_multiset();
    }
    out
}

/// The bytes of `subject:`.
pub open spec fn subject_label() -> Seq<u8> {
    seq![115u8, 117, 98, 106, 101, 99, 116, 58]
}

/// Whether `at` is where a line of `h` begins.
pub open spec fn line_starts_at(h: Seq<u8>, at: int) -> bool {
    at == 0 || (0 < at <= h.len() && h[at - 1] == 10)
}

/// The first line, from `from` on, that begins with `subject:` in any case.
pub open spec fn subject_line_from(h: Seq<u8>, from: int) -> Option<int>
    decreases h.len() - from,
{
    if from < 0 || from + subject_label().len() > h.len() {
        None
    } else if line_starts_at(h, from) && occurs_at(h, subject_label(), from) {
        Some(from)
    } else {
        subject_line_from(h, from + 1)
    }
}

/// Where the line running through `at` ends: at the next newline or the end.
pub open spec fn line_end_from(h: Seq<u8>, at: int) -> int
    decreases h.len() - at,
{
    if at < 0 || at >= h.len() {
        h.len() as int
    } else if h[at] == 10 {
        at
    } else {
        line_end_from(h, at + 1)
    }
}

/// Tab, newline, vertical tab, form feed, carriage return and space.
pub open spec fn is_ascii_blank(c: u8) -> bool {
    c == 32 || (9 <= c && c <= 13)
}

/// The three-byte UTF-8 encodings of white space: U+1680, U+2000 to U+200A,
/// U+2028, U+2029, U+202F, U+205F and U+3000.
pub open spec fn is_wide_blank(x: u8, y: u8, z: u8) -> bool {
    ||| x == 0xE1 && y == 0x9A && z == 0x80
    ||| x == 0xE2 && y == 0x80 && ((0x80 <= z && z <= 0x8A) || z == 0xA8 || z == 0xA9 || z == 0xAF)
    ||| x == 0xE2 && y == 0x81 && z == 0x9F
    ||| x == 0xE3 && y == 0x80 && z == 0x80
}

/// The two-byte UTF-8 encodings of white space: U+0085 and U+00A0.
pub open spec fn is_narrow_blank(x: u8, y: u8) -> bool {
    x == 0xC2 && (y == 0x85 || y == 0xA0)
}

/// How many bytes the white-space character that `b` begins with takes, or 0.
/// Together these are the characters of Unicode's `White_Space` property.
pub open spec fn blank_len_front(b: Seq<u8>) -> int {
    if b.len() >= 1 && is_ascii_blank(b[0]) {
        1
    } else if b.len() >= 2 && is_narrow_blank(b[0], b[1]) {
        2
    } else if b.len() >= 3 && is_wide_blank(b[0], b[1], b[2]) {
        3
    } else {
        0
    }
}

/// How many bytes the white-space character that `b` ends with takes, or 0.
/// In UTF-8 text each lead byte matched here starts the last character.
pub open spec fn blank_len_back(b: Seq<u8>) -> int {
    let n = b.len() as int;
    if n >= 1 && is_ascii_blank(b[n - 1]) {
        1
    } else if n >= 2 && is_narrow_blank(b[n - 2], b[n - 1]) {
        2
    } else if n >= 3 && is_wide_blank(b[n - 3], b[n - 2], b[n - 1]) {
        3
    } else {
        0
    }
}

pub open spec fn trim_front(b: Seq<u8>) -> Seq<u8>
    decreases b.len(),
{
    if blank_len_front(b) > 0 {
        trim_front(b.subrange(blank_len_front(b), b.len() as int))
    } else {
        b
    }
}

pub open spec fn trim_back(b: Seq<u8>) -> Seq<u8>
    decreases b.len(),
{
    if blank_len_back(b) > 0 {
        trim_back(b.subrange(0, b.len() - blank_len_back(b)))
    } else {
        b
    }
}

/// UTF-8 text without its leading and trailing white space.
pub open spec fn trimmed(b: Seq<u8>) -> Seq<u8> {
    trim_back(trim_front(b))
}

/// The subject a header block gives: the rest of its first `subject:` line,
/// trimmed. A block that is not UTF-8, or has no such line, gives none.
pub open spec fn subject_in(h: Seq<u8>) -> Option<Seq<u8>> {
    if !valid_utf8(h) {
        None
    } else {
        match subject_line_from(h, 0) {
            Some(at) => Some(trimmed(h.subrange(at + 8, line_end_from(h, at + 8)))),
            None => None,
        }
    }
}

/// Relies on `std::str::from_utf8`: it succeeds exactly on valid UTF-8.
#[verifier::external_body]
fn is_utf8(bytes: &[u8]) -> (r: bool)
    ensures
        r == valid_utf8(bytes@),
{
    std::str::from_utf8(bytes).is_ok()
}

/// The length of the white-space character at the start of `b[i..j]`, or 0.
fn blank_len_at(b: &[u8], i: usize, j: usize) -> (r: usize)
    requires
        i <= j <= b@.len(),
    ensures
        r == blank_len_front(b@.subrange(i as int, j as int)),
{
    let ghost s = b@.subrange(i as int, j as int);
    if j - i >= 1 && (b[i] == 32 || (9 <= b[i] && b[i] <= 13)) {
        assert(s[0] == b@[i as int]);
        1
    } else if j - i >= 2 && b[i] == 0xC2 && (b[i + 1] == 0x85 || b[i + 1] == 0xA0) {
        assert(s[0] == b@[i as int] && s[1] == b@[i + 1]);
        2
    } else if j - i >= 3 && ((b[i] == 0xE1 && b[i + 1] == 0x9A && b[i + 2] == 0x80) || (b[i] == 0xE2
        && b[i + 1] == 0x80 && ((0x80 <= b[i + 2] && b[i + 2] <= 0x8A) || b[i + 2] == 0xA8
        || b[i + 2] == 0xA9 || b[i + 2] == 0xAF)) || (b[i] == 0xE2 && b[i + 1] == 0x81 && b[i + 2]
        == 0x9F) || (b[i] == 0xE3 && b[i + 1] == 0x80 && b[i + 2] == 0x80)) {
        assert(s[0] == b@[i as int] && s[1] == b@[i + 1] && s[2] == b@[i + 2]);
        3
    } else {
        assert(j - i >= 1 ==> s[0] == b@[i as int]);
        assert(j - i >= 2 ==> s[1] == b@[i + 1]);
        assert(j - i >= 3 ==> s[2] == b@[i + 2]);
        0
    }
}

/// The length of the white-space character at the end of `b[i..j]`, or 0.
fn blank_len_before(b: &[u8], i: usize, j: usize) -> (r: usize)
    requires
        i <= j <= b@.len(),
    ensures
        r == blank_len_back(b@.subrange(i as int, j as int)),
{
    let ghost s = b@.subrange(i as int, j as int);
    let n = j - i;
    if n >= 1 && (b[j - 1] == 32 || (9 <= b[j - 1] && b[j - 1] <= 13)) {
        assert(s[n - 1] == b@[j - 1]);
        1
    } else if n >= 2 && b[j - 2] == 0xC2 && (b[j - 1] == 0x85 || b[j - 1] == 0xA0) {
        assert(s[n - 2] == b@[j - 2] && s[n - 1] == b@[j - 1]);
        2
    } else if n >= 3 && ((b[j - 3] == 0xE1 && b[j - 2] == 0x9A && b[j - 1] == 0x80) || (b[j - 3]
        == 0xE2 && b[j - 2] == 0x80 && ((0x80 <= b[j - 1] && b[j - 1] <= 0x8A) || b[j - 1] == 0xA8
        || b[j - 1] == 0xA9 || b[j - 1] == 0xAF)) || (b[j - 3] == 0xE2 && b[j - 2] == 0x81 && b[j
        - 1] == 0x9F) || (b[j - 3] == 0xE3 && b[j - 2] == 0x80 && b[j - 1] == 0x80)) {
        assert(s[n - 3] == b@[j - 3] && s[n - 2] == b@[j - 2] && s[n - 1] == b@[j - 1]);
        3
    } else {
        assert(n >= 1 ==> s[n - 1] == b@[j - 1]);
        assert(n >= 2 ==> s[n - 2] == b@[j - 2]);
        assert(n >= 3 ==> s[n - 3] == b@[j - 3]);
        0
    }
}

/// Strips leading and trailing white space, as Unicode defines it, from
/// UTF-8 text.
pub fn trim_blanks(b: &[u8]) -> (r: Vec<u8>)
    ensures
        r@ == trimmed(b@),
{
    let len = b.len();
    let mut i: usize = 0;
    assert(b@.subrange(0, len as int) =~= b@);
    loop
        invariant
            i <= len == b@.len(),
            trim_front(b@) == trim_front(b@.subrange(i as int, len as int)),
        ensures
            i <= len == b@.len(),
            trim_front(b@) == trim_front(b@.subrange(i as int, len as int)),
            blank_len_front(b@.subrange(i as int, len as int)) == 0,
        decreases len - i,
    {
        let w = blank_len_at(b, i, len);
        if w == 0 {
            break;
        }
        assert(b@.subrange(i as int, len as int).subrange(w as int, len - i) =~= b@.subrange(
            i + w,
            len as int,
        ));
        i += w;
    }
    let ghost front = b@.subrange(i as int, len as int);
    assert(trim_front(front) == front);
    let mut j: usize = len;
    loop
        invariant
            i <= j <= len == b@.len(),
            front == b@.subrange(i as int, len as int),
            trim_back(front) == trim_back(b@.subrange(i as int, j as int)),
        ensures
            i <= j <= len == b@.len(),
            trim_back(front) == trim_back(b@.subrange(i as int, j as int)),
            blank_len_back(b@.subrange(i as int, j as int)) == 0,
        decreases j,
    {
        let w = blank_len_before(b, i, j);
        if w == 0 {
            break;
        }
        assert(b@.subrange(i as int, j as int).subrange(0, j - i - w) =~= b@.subrange(
            i as int,
            j - w,
        ));
        j -= w;
    }
    let mut out: Vec<u8> = Vec::new();
    let mut k: usize = i;
    while k < j
        invariant
            i <= k <= j <= b.len(),
            out@ == b@.subrange(i as int, k as int),
        decreases j - k,
    {
        out.push(b[k]);
        k += 1;
        assert(out@ =~= b@.subrange(i as int, k as int));
    }
    out
}

/// Reads the subject out of one message's header block.
pub fn subject_of(header: &[u8]) -> (r: Option<Vec<u8>>)
    ensures
        match r {
            Some(s) => subject_in(header@) == Some(s@),
            None => subject_in(header@) is None,
        },
{
    if !is_utf8(header) {
        return None;
    }
    let label: Vec<u8> = vec![115u8, 117, 98, 106, 101, 99, 116, 58];
    assert(label@ =~= subject_label());
    if header.len() < 8 {
        return None;
    }
    let last: usize = header.len() - 8;
    let mut at: usize = 0;
    while at <= last
        invariant
            last + 8 == header.len(),
            label@ == subject_label(),
            valid_utf8(header@),
            subject_line_from(header@, 0) == subject_line_from(header@, at as int),
        decreases last + 1 - at,
    {
        if (at == 0 || header[at - 1] == 10) && matches_at(header, label.as_slice(), at) {
            let mut end: usize = at + 8;
            while end < header.len() && header[end] != 10
                invariant
                    at + 8 <= end <= header.len(),
                    line_end_from(header@, at + 8) == line_end_from(header@, end as int),
                decreases header.len() - end,
            {
                end += 1;
            }
            assert(subject_line_from(header@, at as int) == Some(at as int));
            assert(line_end_from(header@, end as int) == end as int);
            let rest = vstd::slice::slice_subrange(header, at + 8, end);
            assert(rest@ =~= header@.subrange(at + 8, line_end_from(header@, at + 8)));
            let subject = trim_blanks(rest);
            assert(subject_in(header@) == Some(trimmed(rest@)));
            return Some(subject);
        }
        at += 1;
    }
    None
}

/// The subject of each header block in turn, or none where a block gives none.
pub fn extract_subjects(headers: &Vec<Vec<u8>>) -> (r: Vec<Option<Vec<u8>>>)
    ensures
        r@.len() == headers@.len(),
        forall|i: int|
            0 <= i < r@.len() ==> match #[trigger] r@[i] {
                Some(s) => subject_in(headers@[i]@) == Some(s@),
                None => subject_in(headers@[i]@) is None,
            },
{
    let mut out: Vec<Option<Vec<u8>>> = Vec::new();
    let mut i: usize = 0;
    while i < headers.len()
        invariant
            i <= headers.len(),
            out@.len() == i,
            forall|k: int|
                0 <= k < i ==> match #[trigger] out@[k] {
                    Some(s) => subject_in(headers@[k]@) == Some(s@),
                    None => subject_in(headers@[k]@) is None,
                },
        decreases headers.len() - i,
    {
        out.push(subject_of(headers[i].as_slice()));
        i += 1;
    }
    out
}

} // verus!
