//! Comparisons, searches and number parsing over text, on the UTF-8 bytes the
//! texts are made of.
use vstd::prelude::*;
use vstd::string::StringSliceAdditionalSpecFns;
use vstd::utf8::encode_utf8_decode_utf8;

verus! {

/// Two byte strings are equal.
pub fn bytes_eq(a: &[u8], b: &[u8]) -> (r: bool)
    ensures
        r == (a@ == b@),
{
    if a.len() != b.len() {
        return false;
    }
    let mut i: usize = 0;
    while i < a.len()
        invariant
            a@.len() == b@.len(),
            i <= a@.len(),
            forall|k: int| 0 <= k < i ==> a@[k] == b@[k],
        decreases a@.len() - i,
    {
        if a[i] != b[i] {
            return false;
        }
        i = i + 1;
    }
    assert(a@ =~= b@);
    true
}

/// Two texts are equal.
pub fn text_eq(a: &str, b: &str) -> (r: bool)
    ensures
        r == (a@ == b@),
{
    let r = bytes_eq(a.as_bytes(), b.as_bytes());
    proof {
        encode_utf8_decode_utf8(a@);
        encode_utf8_decode_utf8(b@);
    }
    r
}

/// `needle` occurs in `hay` at position `i`.
pub open spec fn occurs_at(hay: Seq<u8>, needle: Seq<u8>, i: int) -> bool {
    &&& 0 <= i
    &&& i + needle.len() <= hay.len()
    &&& hay.subrange(i, i + needle.len()) == needle
}

/// `needle` occurs somewhere in `hay`.
pub open spec fn contains_bytes(hay: Seq<u8>, needle: Seq<u8>) -> bool {
    exists|i: int| occurs_at(hay, needle, i)
}

/// Whether the bytes of `needle` occur in the bytes of `hay`.
pub fn text_contains(hay: &str, needle: &str) -> (r: bool)
    ensures
        r == contains_bytes(hay.spec_bytes(), needle.spec_bytes()),
{
    let h = hay.as_bytes();
    let n = needle.as_bytes();
    if n.len() > h.len() {
        assert forall|i: int| !occurs_at(h@, n@, i) by {}
        return false;
    }
    let hl = h.len();
    let last = hl - n.len();
    let mut i: usize = 0;
    loop
        invariant
            h@ == hay.spec_bytes(),
            h@.len() == hl,
            n@ == needle.spec_bytes(),
            n@.len() <= h@.len(),
            last == h@.len() - n@.len(),
            i <= last,
            forall|k: int| 0 <= k < i ==> !occurs_at(h@, n@, k),
        decreases last - i,
    {
        let mut j: usize = 0;
        let mut same = true;
        while j < n.len()
            invariant
                h@ == hay.spec_bytes(),
                n@ == needle.spec_bytes(),
                h@.len() == hl,
                i <= last,
                n@.len() <= h@.len(),
                last == h@.len() - n@.len(),
                j <= n@.len(),
                same ==> forall|k: int| 0 <= k < j ==> h@[i + k] == n@[k],
                !same ==> !occurs_at(h@, n@, i as int),
            decreases n@.len() - j,
        {
            if same && h[i + j] != n[j] {
                same = false;
                assert(h@.subrange(i as int, i + n@.len())[j as int] != n@[j as int]);
            }
            j = j + 1;
        }
        if same {
            assert(h@.subrange(i as int, i + n@.len()) =~= n@);
            assert(occurs_at(h@, n@, i as int));
            return true;
        }
        if i == last {
            assert forall|k: int| !occurs_at(h@, n@, k) by {
                if 0 <= k < i {
                }
            }
            return false;
        }
        i = i + 1;
    }
}

/// A byte with ASCII upper case folded to lower case.
pub open spec fn ascii_lower(b: u8) -> u8 {
    if 65 <= b <= 90 {
        (b + 32) as u8
    } else {
        b
    }
}

/// Equal up to ASCII case, byte by byte.
pub open spec fn eq_ignoring_ascii_case(a: Seq<u8>, b: Seq<u8>) -> bool {
    &&& a.len() == b.len()
    &&& forall|i: int| 0 <= i < a.len() ==> ascii_lower(#[trigger] a[i]) == ascii_lower(b[i])
}

/// Whether two texts are equal up to ASCII case.
pub fn text_eq_ignore_ascii_case(a: &str, b: &str) -> (r: bool)
    ensures
        r == eq_ignoring_ascii_case(a.spec_bytes(), b.spec_bytes()),
{
    let x = a.as_bytes();
    let y = b.as_bytes();
    if x.len() != y.len() {
        return false;
    }
    let mut i: usize = 0;
    while i < x.len()
        invariant
            x@ == a.spec_bytes(),
            y@ == b.spec_bytes(),
            x@.len() == y@.len(),
            i <= x@.len(),
            forall|k: int| 0 <= k < i ==> ascii_lower(#[trigger] x@[k]) == ascii_lower(y@[k]),
        decreases x@.len() - i,
    {
        let p = x[i];
        let q = y[i];
        let lp = if 65 <= p && p <= 90 { p + 32 } else { p };
        let lq = if 65 <= q && q <= 90 { q + 32 } else { q };
        if lp != lq {
            return false;
        }
        i = i + 1;
    }
    true
}

/// The value of a string of decimal digits.
pub open spec fn digits_value(d: Seq<u8>) -> nat
    decreases d.len(),
{
    if d.len() == 0 {
        0
    } else {
        digits_value(d.drop_last()) * 10 + (d.last() - 48) as nat
    }
}

/// Every byte is an ASCII digit.
pub open spec fn all_digits(d: Seq<u8>) -> bool {
    forall|i: int| 0 <= i < d.len() ==> 48 <= #[trigger] d[i] <= 57
}

/// The digits of an unsigned number: the text after an optional leading `+`.
pub open spec fn unsigned_digits(text: Seq<u8>) -> Seq<u8> {
    if text.len() > 0 && text[0] == 43 {
        text.drop_first()
    } else {
        text
    }
}

/// The unsigned number spelled by `text` (an optional `+`, then one or more
/// ASCII digits), if it is at most `max`.
pub open spec fn parsed_unsigned(text: Seq<u8>, max: nat) -> Option<nat> {
    let d = unsigned_digits(text);
    if d.len() > 0 && all_digits(d) && digits_value(d) <= max {
        Some(digits_value(d))
    } else {
        None
    }
}

proof fn lemma_digits_prefix(d: Seq<u8>, i: int)
    requires
        0 <= i < d.len(),
    ensures
        digits_value(d.subrange(0, i + 1)) == digits_value(d.subrange(0, i)) * 10 + (d[i] - 48) as nat,
{
    assert(d.subrange(0, i + 1).drop_last() =~= d.subrange(0, i));
}

proof fn lemma_digits_grow(d: Seq<u8>, i: int)
    requires
        0 <= i <= d.len(),
        all_digits(d),
    ensures
        digits_value(d.subrange(0, i)) <= digits_value(d),
    decreases d.len() - i,
{
    if i < d.len() {
        lemma_digits_prefix(d, i);
        lemma_digits_grow(d, i + 1);
    } else {
        assert(d.subrange(0, i) =~= d);
    }
}

/// Parses an unsigned decimal number no larger than `max`: an optional `+`,
/// then one or more ASCII digits; anything else is `None`.
pub fn parse_unsigned(text: &str, max: u64) -> (r: Option<u64>)
    ensures
        match parsed_unsigned(text.spec_bytes(), max as nat) {
            None => r is None,
            Some(n) => r == Some(n as u64),
        },
{
    let b = text.as_bytes();
    let start: usize = if b.len() > 0 && b[0] == 43u8 { 1 } else { 0 };
    let ghost d = unsigned_digits(b@);
    assert(d =~= b@.subrange(start as int, b@.len() as int));
    assert(unsigned_digits(text.spec_bytes()) == d);
    if start >= b.len() {
        assert(d.len() == 0);
        return None;
    }
    let mut value: u64 = 0;
    let mut i: usize = start;
    while i < b.len()
        invariant
            b@ == text.spec_bytes(),
            d == unsigned_digits(text.spec_bytes()),
            d == b@.subrange(start as int, b@.len() as int),
            start <= i <= b@.len(),
            all_digits(d.subrange(0, i - start)),
            value as nat == digits_value(d.subrange(0, i - start)),
            value <= max,
        decreases b@.len() - i,
    {
        let c = b[i];
        if c < 48u8 || c > 57u8 {
            assert(d[i - start] == c);
            assert(!all_digits(d));
            return None;
        }
        proof {
            lemma_digits_prefix(d, i - start);
            assert(d.subrange(0, i - start + 1).drop_last() =~= d.subrange(0, i - start));
        }
        let next: u128 = value as u128 * 10 + (c - 48u8) as u128;
        if next > max as u128 {
            proof {
                lemma_digits_prefix(d, i - start);
                if all_digits(d) {
                    lemma_digits_grow(d, i - start + 1);
                }
                assert(parsed_unsigned(text.spec_bytes(), max as nat) is None);
            }
            return None;
        }
        value = next as u64;
        i = i + 1;
    }
    assert(d.subrange(0, d.len() as int) =~= d);
    Some(value)
}

} // verus!
