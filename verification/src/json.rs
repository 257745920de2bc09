//! The JSON text of record fields, as `serde_json` writes it in its compact
//! form: strings and integers come from `serde_json` itself, and the framing of
//! objects and arrays is assembled here.
use vstd::prelude::*;
use vstd::string::StringSliceAdditionalSpecFns;
use vstd::utf8::encode_utf8;

verus! {

/// A lowercase hex digit for a nibble value `n < 16`, as an ASCII byte.
pub open spec fn hex_digit_byte(n: int) -> u8 {
    if n < 10 {
        (48 + n) as u8
    } else {
        (87 + n) as u8
    }
}

/// What `serde_json` writes for the byte `b` inside a string: `\"`, `\\`,
/// `\b`, `\t`, `\n`, `\f`, `\r` for those bytes; `\u00` and two lowercase hex
/// digits for the other bytes below 0x20; the byte itself for all others.
pub open spec fn escaped_byte(b: u8) -> Seq<u8> {
    if b == 34 {
        seq![92u8, 34u8]
    } else if b == 92 {
        seq![92u8, 92u8]
    } else if b == 8 {
        seq![92u8, 98u8]
    } else if b == 9 {
        seq![92u8, 116u8]
    } else if b == 10 {
        seq![92u8, 110u8]
    } else if b == 12 {
        seq![92u8, 102u8]
    } else if b == 13 {
        seq![92u8, 114u8]
    } else if b < 32 {
        seq![92u8, 117u8, 48u8, 48u8, hex_digit_byte(b as int / 16), hex_digit_byte(b as int % 16)]
    } else {
        seq![b]
    }
}

/// The escaped form of a run of bytes, byte by byte.
pub open spec fn escaped(bytes: Seq<u8>) -> Seq<u8>
    decreases bytes.len(),
{
    if bytes.len() == 0 {
        Seq::empty()
    } else {
        escaped_byte(bytes[0]) + escaped(bytes.drop_first())
    }
}

/// The JSON string literal that `serde_json` writes for the text `s`: a quote,
/// the escaped UTF-8 bytes of `s`, a quote.
pub open spec fn json_string(s: Seq<char>) -> Seq<u8> {
    seq![34u8] + (escaped(encode_utf8(s)) + seq![34u8])
}

/// The pieces, one after the other.
pub open spec fn concat(pieces: Seq<Seq<u8>>) -> Seq<u8>
    decreases pieces.len(),
{
    if pieces.len() == 0 {
        Seq::empty()
    } else {
        pieces[0] + concat(pieces.drop_first())
    }
}

/// One more piece at the end adds its bytes at the end.
pub proof fn lemma_concat_push(pieces: Seq<Seq<u8>>, p: Seq<u8>)
    ensures
        concat(pieces.push(p)) == concat(pieces) + p,
    decreases pieces.len(),
{
    if pieces.len() == 0 {
        let q = pieces.push(p);
        assert(q.drop_first() =~= Seq::<Seq<u8>>::empty());
        assert(concat(q) == q[0] + concat(q.drop_first()));
        assert(concat(q) =~= concat(pieces) + p);
    } else {
        let q = pieces.push(p);
        assert(q.drop_first() =~= pieces.drop_first().push(p));
        lemma_concat_push(pieces.drop_first(), p);
        assert(q[0] == pieces[0]);
        assert(concat(q) == q[0] + concat(q.drop_first()));
        assert(concat(pieces) == pieces[0] + concat(pieces.drop_first()));
        vstd::seq_lib::lemma_concat_associative(pieces[0], concat(pieces.drop_first()), p);
    }
}

/// The pieces so far with `p` appended, for building a `concat` one piece at
/// a time.
pub proof fn extend(pieces: Seq<Seq<u8>>, p: Seq<u8>) -> (r: Seq<Seq<u8>>)
    ensures
        r == pieces.push(p),
        concat(r) == concat(pieces) + p,
{
    lemma_concat_push(pieces, p);
    pieces.push(p)
}

/// The pieces from `k` on are piece `k`, then the pieces after it.
pub proof fn lemma_concat_step(pieces: Seq<Seq<u8>>, k: int)
    requires
        0 <= k < pieces.len(),
    ensures
        concat(pieces.subrange(k, pieces.len() as int)) == pieces[k] + concat(pieces.subrange(k + 1, pieces.len() as int)),
{
    assert(pieces.subrange(k, pieces.len() as int).drop_first() =~= pieces.subrange(k + 1, pieces.len() as int));
}

/// The decimal digits of `n`, without sign or leading zeros, as ASCII bytes.
pub open spec fn decimal(n: nat) -> Seq<u8>
    decreases n,
{
    if n < 10 {
        seq![(48 + n) as u8]
    } else {
        decimal(n / 10).push((48 + n % 10) as u8)
    }
}

/// The elements of a JSON array of integers, separated by commas.
pub open spec fn decimal_items(items: Seq<usize>) -> Seq<u8>
    decreases items.len(),
{
    if items.len() == 0 {
        Seq::empty()
    } else if items.len() == 1 {
        decimal(items[0] as nat)
    } else {
        decimal_items(items.drop_last()) + seq![44u8] + decimal(items.last() as nat)
    }
}

/// The elements of a JSON array of strings, separated by commas.
pub open spec fn string_items(items: Seq<Seq<char>>) -> Seq<u8>
    decreases items.len(),
{
    if items.len() == 0 {
        Seq::empty()
    } else if items.len() == 1 {
        json_string(items[0])
    } else {
        string_items(items.drop_last()) + seq![44u8] + json_string(items.last())
    }
}

/// A JSON array of integers.
pub open spec fn json_usizes(items: Seq<usize>) -> Seq<u8> {
    seq![91u8] + decimal_items(items) + seq![93u8]
}

/// A JSON array of strings.
pub open spec fn json_strings(items: Seq<Seq<char>>) -> Seq<u8> {
    seq![91u8] + string_items(items) + seq![93u8]
}

/// An optional string: `null`, or the string.
pub open spec fn json_opt_string(o: Option<Seq<char>>) -> Seq<u8> {
    match o {
        None => "null".spec_bytes(),
        Some(s) => json_string(s),
    }
}

/// An optional integer: `null`, or its digits.
pub open spec fn json_opt_u64(o: Option<u64>) -> Seq<u8> {
    match o {
        None => "null".spec_bytes(),
        Some(n) => decimal(n as nat),
    }
}

/// `serde_json::to_vec` of a `str`: its JSON string literal, escaped by the
/// crate's `ESCAPE` table as `json_string` states. Serializing a `str` into a
/// `Vec` cannot fail, as the crate documents (only a failing `Serialize` impl
/// or a map with non-string keys can).
#[verifier::external_body]
pub(crate) fn json_str(s: &str) -> (bytes: Vec<u8>)
    ensures
        bytes@ == json_string(s@),
{
    serde_json::to_vec(s).expect("serializing a str cannot fail")
}

/// `serde_json::to_vec` of a `u64`: its decimal digits. Serializing an
/// integer into a `Vec` cannot fail.
#[verifier::external_body]
pub(crate) fn json_u64(n: u64) -> (bytes: Vec<u8>)
    ensures
        bytes@ == decimal(n as nat),
{
    serde_json::to_vec(&n).expect("serializing an integer cannot fail")
}

/// Appends the bytes of `text`.
pub fn push_text(out: &mut Vec<u8>, text: &str)
    ensures
        final(out)@ == old(out)@ + text.spec_bytes(),
{
    let bytes = text.as_bytes();
    let mut i: usize = 0;
    while i < bytes.len()
        invariant
            bytes@ == text.spec_bytes(),
            i <= bytes@.len(),
            out@ == old(out)@ + bytes@.subrange(0, i as int),
        decreases bytes@.len() - i,
    {
        out.push(bytes[i]);
        i = i + 1;
        assert(bytes@.subrange(0, i as int) == bytes@.subrange(0, i - 1).push(bytes@[i - 1]));
    }
    assert(bytes@.subrange(0, bytes@.len() as int) == bytes@);
}

/// Appends `more`.
pub fn push_bytes(out: &mut Vec<u8>, more: &Vec<u8>)
    ensures
        final(out)@ == old(out)@ + more@,
{
    let mut i: usize = 0;
    while i < more.len()
        invariant
            i <= more@.len(),
            out@ == old(out)@ + more@.subrange(0, i as int),
        decreases more@.len() - i,
    {
        out.push(more[i]);
        i = i + 1;
        assert(more@.subrange(0, i as int) == more@.subrange(0, i - 1).push(more@[i - 1]));
    }
    assert(more@.subrange(0, more@.len() as int) == more@);
}

/// Appends the JSON string for `s`.
pub fn push_json_str(out: &mut Vec<u8>, s: &str)
    ensures
        final(out)@ == old(out)@ + json_string(s@),
{
    let b = json_str(s);
    push_bytes(out, &b);
}

/// Appends the digits of `n`.
pub fn push_json_u64(out: &mut Vec<u8>, n: u64)
    ensures
        final(out)@ == old(out)@ + decimal(n as nat),
{
    let b = json_u64(n);
    push_bytes(out, &b);
}

/// Appends a JSON array of integers.
pub fn push_json_usizes(out: &mut Vec<u8>, items: &Vec<usize>)
    ensures
        final(out)@ == old(out)@ + json_usizes(items@),
{
    out.push(91u8);
    let ghost start = out@;
    let mut i: usize = 0;
    while i < items.len()
        invariant
            i <= items@.len(),
            out@ == start + decimal_items(items@.subrange(0, i as int)),
        decreases items@.len() - i,
    {
        let ghost prev = items@.subrange(0, i as int);
        if i > 0 {
            out.push(44u8);
        }
        push_json_u64(out, items[i] as u64);
        i = i + 1;
        let ghost next = items@.subrange(0, i as int);
        assert(next.drop_last() == prev);
        assert(next.last() == items@[i - 1]);
        if i == 1 {
            assert(prev.len() == 0);
        }
    }
    assert(items@.subrange(0, items@.len() as int) == items@);
    out.push(93u8);
}

/// Appends a JSON array of strings.
pub fn push_json_strings(out: &mut Vec<u8>, items: &Vec<String>)
    ensures
        final(out)@ == old(out)@ + json_strings(items@.map_values(|s: String| s@)),
{
    let ghost all = items@.map_values(|s: String| s@);
    out.push(91u8);
    let ghost start = out@;
    let mut i: usize = 0;
    while i < items.len()
        invariant
            i <= items@.len(),
            all == items@.map_values(|s: String| s@),
            out@ == start + string_items(all.subrange(0, i as int)),
        decreases items@.len() - i,
    {
        let ghost prev = all.subrange(0, i as int);
        if i > 0 {
            out.push(44u8);
        }
        push_json_str(out, items[i].as_str());
        i = i + 1;
        let ghost next = all.subrange(0, i as int);
        assert(next.drop_last() == prev);
        assert(next.last() == items@[i - 1]@);
        if i == 1 {
            assert(prev.len() == 0);
        }
    }
    assert(all.subrange(0, all.len() as int) == all);
    out.push(93u8);
}

/// Appends an optional string.
pub fn push_json_opt_str(out: &mut Vec<u8>, o: &Option<String>)
    ensures
        final(out)@ == old(out)@ + json_opt_string(
            match o {
                None => None,
                Some(s) => Some(s@),
            },
        ),
{
    match o {
        None => push_text(out, "null"),
        Some(s) => push_json_str(out, s.as_str()),
    }
}

/// Appends an optional integer.
pub fn push_json_opt_u64(out: &mut Vec<u8>, o: Option<u64>)
    ensures
        final(out)@ == old(out)@ + json_opt_u64(o),
{
    match o {
        None => push_text(out, "null"),
        Some(n) => push_json_u64(out, n),
    }
}

} // verus!
