//! Reading an HTTP/1.1 request: where its head ends, how long its body is,
//! and its method, target and body.
use vstd::prelude::*;
use vstd::utf8::encode_utf8;
use crate::routes::{has_prefix, lemma_next_index_bounds, next_index};
use crate::text::{parse_unsigned, parsed_unsigned};

verus! {

/// The most bytes read while waiting for the end of the head.
pub const MAX_HEAD_BYTES: usize = 1048576;

/// `\r\n\r\n` starts at position `i` of `b`.
pub open spec fn blank_line_at(b: Seq<u8>, i: int) -> bool {
    0 <= i && i + 4 <= b.len() && b[i] == 13 && b[i + 1] == 10 && b[i + 2] == 13 && b[i + 3] == 10
}

/// Where reading the head of a request stands.
#[derive(Debug, Clone, Copy, PartialEq, Eq, Structural)]
pub enum HeadProgress {
    /// The head is complete; it ends (blank line included) before this position.
    Complete(usize),
    /// No blank line yet, and more than `MAX_HEAD_BYTES` have arrived.
    TooLarge,
    /// No blank line yet; read more.
    Incomplete,
}

/// What to do with the bytes received so far: the head ends after the first
/// `\r\n\r\n`; without one, more than `MAX_HEAD_BYTES` bytes are refused.
pub fn head_progress(bytes: &[u8]) -> (r: HeadProgress)
    ensures
        match r {
            HeadProgress::Complete(end) => end >= 4 && blank_line_at(bytes@, end - 4) && forall|i: int|
                0 <= i < end - 4 ==> !blank_line_at(bytes@, i),
            HeadProgress::TooLarge => (forall|i: int| !blank_line_at(bytes@, i)) && bytes@.len() > MAX_HEAD_BYTES,
            HeadProgress::Incomplete => (forall|i: int| !blank_line_at(bytes@, i)) && bytes@.len() <= MAX_HEAD_BYTES,
        },
{
    let n = bytes.len();
    let mut i: usize = 0;
    while n >= 4 && i <= n - 4
        invariant
            n == bytes@.len(),
            forall|k: int| 0 <= k < i ==> !blank_line_at(bytes@, k),
        decreases n - i,
    {
        if bytes[i] == 13u8 && bytes[i + 1] == 10u8 && bytes[i + 2] == 13u8 && bytes[i + 3] == 10u8 {
            return HeadProgress::Complete(i + 4);
        }
        i = i + 1;
    }
    if n > MAX_HEAD_BYTES {
        HeadProgress::TooLarge
    } else {
        HeadProgress::Incomplete
    }
}

/// Unicode white space, as `char::is_whitespace` counts it.
pub open spec fn is_whitespace(c: char) -> bool {
    ||| '\t' <= c <= '\r'
    ||| c == ' '
    ||| c == '\u{85}'
    ||| c == '\u{a0}'
    ||| c == '\u{1680}'
    ||| '\u{2000}' <= c <= '\u{200a}'
    ||| c == '\u{2028}'
    ||| c == '\u{2029}'
    ||| c == '\u{202f}'
    ||| c == '\u{205f}'
    ||| c == '\u{3000}'
}

fn char_is_whitespace(c: char) -> (r: bool)
    ensures
        r == is_whitespace(c),
{
    ('\t' <= c && c <= '\r') || c == ' ' || c == '\u{85}' || c == '\u{a0}' || c == '\u{1680}'
        || ('\u{2000}' <= c && c <= '\u{200a}') || c == '\u{2028}' || c == '\u{2029}' || c == '\u{202f}'
        || c == '\u{205f}' || c == '\u{3000}'
}

/// The first position at or after `i` that is not white space, or the length.
pub open spec fn skip_white(s: Seq<char>, i: int) -> int
    decreases s.len() - i,
{
    if i >= s.len() {
        s.len() as int
    } else if is_whitespace(s[i]) {
        skip_white(s, i + 1)
    } else {
        i
    }
}

/// The end of `s[..j]` once trailing white space is dropped.
pub open spec fn trim_end(s: Seq<char>, j: int) -> int
    decreases j,
{
    if j <= 0 {
        0
    } else if is_whitespace(s[j - 1]) {
        trim_end(s, j - 1)
    } else {
        j
    }
}

/// `s` without leading and trailing white space.
pub open spec fn trimmed(s: Seq<char>) -> Seq<char> {
    let a = skip_white(s, 0);
    let b = trim_end(s, s.len() as int);
    if b <= a {
        Seq::empty()
    } else {
        s.subrange(a, b)
    }
}

proof fn lemma_skip_white(s: Seq<char>, i: int)
    requires
        0 <= i <= s.len(),
    ensures
        i <= skip_white(s, i) <= s.len(),
    decreases s.len() - i,
{
    if i < s.len() && is_whitespace(s[i]) {
        lemma_skip_white(s, i + 1);
    }
}

proof fn lemma_trim_end(s: Seq<char>, j: int)
    requires
        0 <= j <= s.len(),
    ensures
        0 <= trim_end(s, j) <= j,
    decreases j,
{
    if j > 0 && is_whitespace(s[j - 1]) {
        lemma_trim_end(s, j - 1);
    }
}

/// `s` without leading and trailing white space.
pub fn trim(s: &str) -> (r: &str)
    ensures
        r@ == trimmed(s@),
{
    let n = s.unicode_len();
    let mut a: usize = 0;
    while a < n && char_is_whitespace(s.get_char(a))
        invariant
            n == s@.len(),
            a <= n,
            skip_white(s@, 0) == skip_white(s@, a as int),
        decreases n - a,
    {
        a = a + 1;
    }
    let mut b: usize = n;
    proof {
        lemma_trim_end(s@, n as int);
    }
    while b > 0 && char_is_whitespace(s.get_char(b - 1))
        invariant
            n == s@.len(),
            b <= n,
            trim_end(s@, n as int) == trim_end(s@, b as int),
        decreases b,
    {
        b = b - 1;
    }
    if b <= a {
        s.substring_char(0, 0)
    } else {
        s.substring_char(a, b)
    }
}

/// The length a header line declares: after a `Content-Length:` (or
/// `content-length:`) prefix, the trimmed rest as an unsigned number.
pub open spec fn declared_length(line: Seq<char>) -> Option<nat> {
    if "Content-Length:"@.is_prefix_of(line) || "content-length:"@.is_prefix_of(line) {
        parsed_unsigned(encode_utf8(trimmed(line.subrange(15, line.len() as int))), usize::MAX as nat)
    } else {
        None
    }
}

/// The line of the head that starts at `start` and ends before `end`: a
/// line ended by `\n` also loses one `\r` before it.
pub open spec fn line_at(h: Seq<char>, start: int, end: int) -> Seq<char> {
    let piece = h.subrange(start, end);
    if end < h.len() && piece.len() > 0 && piece.last() == '\r' {
        piece.drop_last()
    } else {
        piece
    }
}

/// The body length the head declares from line `start` on: the first line
/// that declares one decides; with none, zero.
pub open spec fn content_length_from(h: Seq<char>, start: int) -> nat
    decreases h.len() - start,
    when 0 <= start <= h.len()
{
    if start >= h.len() {
        0
    } else {
        let end = next_index(h, '\n', start);
        proof {
            lemma_next_index_bounds(h, '\n', start);
        }
        match declared_length(line_at(h, start, end)) {
            Some(n) => n,
            None => if end < h.len() {
                content_length_from(h, end + 1)
            } else {
                0
            },
        }
    }
}

/// The body length a request head declares with `Content-Length`, or zero.
pub fn content_length(header: &str) -> (r: usize)
    ensures
        r == content_length_from(header@, 0),
{
    let n = header.unicode_len();
    let mut start: usize = 0;
    while start < n
        invariant
            n == header@.len(),
            start <= n,
            content_length_from(header@, 0) == content_length_from(header@, start as int),
        decreases n - start,
    {
        let end = crate::routes::find_char(header, '\n', start);
        proof {
            lemma_next_index_bounds(header@, '\n', start as int);
        }
        let piece = header.substring_char(start, end);
        let line = if end < n && end > start && header.get_char(end - 1) == '\r' {
            header.substring_char(start, end - 1)
        } else {
            piece
        };
        assert(line@ =~= line_at(header@, start as int, end as int));
        if has_prefix(line, "Content-Length:") || has_prefix(line, "content-length:") {
            let ll = line.unicode_len();
            proof {
                reveal_strlit("Content-Length:");
                reveal_strlit("content-length:");
            }
            let rest = line.substring_char(15, ll);
            let value = trim(rest);
            match parse_unsigned(value, usize::MAX as u64) {
                Some(len) => {
                    return len as usize;
                },
                None => {},
            }
        }
        if end >= n {
            return 0;
        }
        start = end + 1;
    }
    0
}

/// The first position at or after `i` that is white space, or the length.
pub open spec fn next_white(s: Seq<char>, i: int) -> int
    decreases s.len() - i,
{
    if i >= s.len() {
        s.len() as int
    } else if is_whitespace(s[i]) {
        i
    } else {
        next_white(s, i + 1)
    }
}

proof fn lemma_next_white(s: Seq<char>, i: int)
    requires
        0 <= i <= s.len(),
    ensures
        i <= next_white(s, i) <= s.len(),
    decreases s.len() - i,
{
    if i < s.len() && !is_whitespace(s[i]) {
        lemma_next_white(s, i + 1);
    }
}

/// `pat` occurs in `s` at position `i`.
pub open spec fn text_at(s: Seq<char>, pat: Seq<char>, i: int) -> bool {
    0 <= i && i + pat.len() <= s.len() && s.subrange(i, i + pat.len()) == pat
}

/// The first position at or after `i` where `pat` occurs in `s`, or the length.
pub open spec fn next_text(s: Seq<char>, pat: Seq<char>, i: int) -> int
    decreases s.len() - i,
{
    if i >= s.len() {
        s.len() as int
    } else if text_at(s, pat, i) {
        i
    } else {
        next_text(s, pat, i + 1)
    }
}

proof fn lemma_next_text(s: Seq<char>, pat: Seq<char>, i: int)
    requires
        0 <= i <= s.len(),
    ensures
        i <= next_text(s, pat, i) <= s.len(),
        next_text(s, pat, i) < s.len() ==> text_at(s, pat, next_text(s, pat, i)),
    decreases s.len() - i,
{
    if i < s.len() && !text_at(s, pat, i) {
        lemma_next_text(s, pat, i + 1);
    }
}

/// The first position at or after `start` where `pat` occurs in `s`, or the
/// length of `s`.
fn find_text(s: &str, pat: &str, start: usize) -> (r: usize)
    requires
        start <= s@.len(),
    ensures
        r == next_text(s@, pat@, start as int),
{
    let n = s.unicode_len();
    let m = pat.unicode_len();
    let mut i = start;
    while i < n
        invariant
            n == s@.len(),
            m == pat@.len(),
            start <= i <= n,
            next_text(s@, pat@, start as int) == next_text(s@, pat@, i as int),
        decreases n - i,
    {
        if m <= n - i {
            let mut j: usize = 0;
            let mut same = true;
            while j < m
                invariant
                    n == s@.len(),
                    m == pat@.len(),
                    i + m <= n,
                    j <= m,
                    same == (forall|k: int| 0 <= k < j ==> s@[i + k] == pat@[k]),
                decreases m - j,
            {
                if s.get_char(i + j) != pat.get_char(j) {
                    same = false;
                }
                j = j + 1;
            }
            if same {
                assert(s@.subrange(i as int, i + m) =~= pat@);
                return i;
            } else {
                proof {
                    let k = choose|k: int| 0 <= k < m && s@[i + k] != pat@[k];
                    assert(s@.subrange(i as int, i + m)[k] != pat@[k]);
                }
            }
        }
        i = i + 1;
    }
    i
}

/// The request line: everything before the first `\r\n`.
pub open spec fn request_line(r: Seq<char>) -> Seq<char> {
    r.subrange(0, next_text(r, "\r\n"@, 0))
}

/// The first word of `l` (the method), empty when there is none.
pub open spec fn first_word(l: Seq<char>) -> Seq<char> {
    let a = skip_white(l, 0);
    l.subrange(a, next_white(l, a))
}

/// The second word of `l` (the target), empty when there is none.
pub open spec fn second_word(l: Seq<char>) -> Seq<char> {
    let a = skip_white(l, 0);
    let b = skip_white(l, next_white(l, a));
    l.subrange(b, next_white(l, b))
}

/// The body: what lies between the first `\r\n\r\n` and the next one (or
/// the end); empty when there is no `\r\n\r\n`.
pub open spec fn request_body(r: Seq<char>) -> Seq<char> {
    let p = next_text(r, "\r\n\r\n"@, 0);
    if p < r.len() {
        r.subrange(p + 4, next_text(r, "\r\n\r\n"@, p + 4))
    } else {
        Seq::empty()
    }
}

/// The method, target and body of a request.
pub fn request_parts(request: &str) -> (r: (&str, &str, &str))
    ensures
        r.0@ == first_word(request_line(request@)),
        r.1@ == second_word(request_line(request@)),
        r.2@ == request_body(request@),
{
    proof {
        reveal_strlit("\r\n");
        reveal_strlit("\r\n\r\n");
    }
    let n = request.unicode_len();
    let le = find_text(request, "\r\n", 0);
    proof {
        lemma_next_text(request@, "\r\n"@, 0);
    }
    let line = request.substring_char(0, le);
    let a = skip_white_at(line, 0);
    let ae = next_white_at(line, a);
    let method = line.substring_char(a, ae);
    let b = skip_white_at(line, ae);
    let be = next_white_at(line, b);
    let target = line.substring_char(b, be);
    let p = find_text(request, "\r\n\r\n", 0);
    proof {
        lemma_next_text(request@, "\r\n\r\n"@, 0);
    }
    let body = if p < n {
        let q = find_text(request, "\r\n\r\n", p + 4);
        proof {
            lemma_next_text(request@, "\r\n\r\n"@, p + 4);
        }
        request.substring_char(p + 4, q)
    } else {
        request.substring_char(n, n)
    };
    (method, target, body)
}

/// The first position at or after `i` that is not white space, or the length.
fn skip_white_at(s: &str, i: usize) -> (r: usize)
    requires
        i <= s@.len(),
    ensures
        r == skip_white(s@, i as int),
        i <= r <= s@.len(),
{
    let n = s.unicode_len();
    let mut k = i;
    proof {
        lemma_skip_white(s@, i as int);
    }
    while k < n && char_is_whitespace(s.get_char(k))
        invariant
            n == s@.len(),
            i <= k <= n,
            skip_white(s@, i as int) == skip_white(s@, k as int),
        decreases n - k,
    {
        k = k + 1;
    }
    k
}

/// The first position at or after `i` that is white space, or the length.
fn next_white_at(s: &str, i: usize) -> (r: usize)
    requires
        i <= s@.len(),
    ensures
        r == next_white(s@, i as int),
        i <= r <= s@.len(),
{
    let n = s.unicode_len();
    let mut k = i;
    proof {
        lemma_next_white(s@, i as int);
    }
    while k < n && !char_is_whitespace(s.get_char(k))
        invariant
            n == s@.len(),
            i <= k <= n,
            next_white(s@, i as int) == next_white(s@, k as int),
        decreases n - k,
    {
        k = k + 1;
    }
    k
}

/// The reason phrase sent with a status code.
pub fn reason_phrase(status: u16) -> (r: &'static str)
    ensures
        r@ == (match status {
            200 => "OK"@,
            201 => "Created"@,
            400 => "Bad Request"@,
            404 => "Not Found"@,
            409 => "Conflict"@,
            _ => "Error"@,
        }),
{
    match status {
        200 => "OK",
        201 => "Created",
        400 => "Bad Request",
        404 => "Not Found",
        409 => "Conflict",
        _ => "Error",
    }
}

/// A blank line at `i` is the four bytes `\r\n\r\n` there.
pub proof fn lemma_blank_line(b: Seq<u8>, i: int)
    requires
        0 <= i,
    ensures
        blank_line_at(b, i) <==> (i + 4 <= b.len() && b.subrange(i, i + 4) == seq![13u8, 10u8, 13u8, 10u8]),
{
    if i + 4 <= b.len() {
        let w = b.subrange(i, i + 4);
        if w =~= seq![13u8, 10u8, 13u8, 10u8] {
            assert(w[0] == b[i] && w[1] == b[i + 1] && w[2] == b[i + 2] && w[3] == b[i + 3]);
        }
    }
}

/// Trimming keeps a contiguous part of the text: what it drops at either end
/// is white space, and what it keeps neither starts nor ends with white space.
pub proof fn lemma_trimmed(s: Seq<char>)
    ensures
        exists|a: int, b: int| 0 <= a <= b <= s.len() && #[trigger] s.subrange(a, b) == trimmed(s)
            && (forall|k: int| 0 <= k < a ==> is_whitespace(#[trigger] s[k]))
            && (forall|k: int| b <= k < s.len() ==> is_whitespace(#[trigger] s[k])),
        trimmed(s).len() > 0 ==> !is_whitespace(trimmed(s)[0]) && !is_whitespace(trimmed(s).last()),
{
    let a = skip_white(s, 0);
    let b = trim_end(s, s.len() as int);
    lemma_skip_white_all(s, 0);
    lemma_trim_end_all(s, s.len() as int);
    if b <= a {
        assert forall|k: int| b <= k < s.len() implies is_whitespace(#[trigger] s[k]) by {
            if k < a {
                assert(is_whitespace(s[k]));
            }
        }
        assert(s.subrange(b, b) =~= trimmed(s));
    } else {
        assert(s.subrange(a, b) == trimmed(s));
    }
}

/// Everything that `skip_white` passes over is white space, and it stops at a
/// character that is not, or at the end.
proof fn lemma_skip_white_all(s: Seq<char>, i: int)
    requires
        0 <= i <= s.len(),
    ensures
        i <= skip_white(s, i) <= s.len(),
        forall|k: int| i <= k < skip_white(s, i) ==> is_whitespace(#[trigger] s[k]),
        skip_white(s, i) < s.len() ==> !is_whitespace(s[skip_white(s, i)]),
    decreases s.len() - i,
{
    if i < s.len() && is_whitespace(s[i]) {
        lemma_skip_white_all(s, i + 1);
    }
}

/// Everything that `trim_end` drops is white space, and the kept part ends
/// with a character that is not, unless it is empty.
proof fn lemma_trim_end_all(s: Seq<char>, j: int)
    requires
        0 <= j <= s.len(),
    ensures
        0 <= trim_end(s, j) <= j,
        forall|k: int| trim_end(s, j) <= k < j ==> is_whitespace(#[trigger] s[k]),
        trim_end(s, j) > 0 ==> !is_whitespace(s[trim_end(s, j) - 1]),
    decreases j,
{
    if j > 0 && is_whitespace(s[j - 1]) {
        lemma_trim_end_all(s, j - 1);
    }
}

} // verus!
