//! The canonical JSON of a record can be read back: its bytes determine the
//! record. Strings are self-delimiting (a quote inside one is always escaped),
//! numbers end at the first byte that is not a digit, and the keys between
//! fields are the same for every record of a type.
use vstd::prelude::*;
use vstd::seq_lib::lemma_concat_associative;
use vstd::string::StringSliceAdditionalSpecFns;
use vstd::utf8::{encode_utf8, encode_utf8_decode_utf8, is_ascii_chars_encode_utf8};
use crate::json::{
    concat, decimal, decimal_items, escaped, escaped_byte, hex_digit_byte, json_opt_string, json_opt_u64,
    json_string, json_strings, json_usizes, lemma_concat_step, string_items,
};
use crate::records::{
    attestation_json, job_json, job_state_json, job_state_name, join_json, node_json, policy_json, result_json, JobState,
    SpecAttestationBlob, SpecJobPolicy, SpecJobRecord, SpecJoinRecord, SpecNodeRecord, SpecResultRecord,
};
use crate::text::{all_digits, digits_value};

verus! {

/// A byte that is not an ASCII digit.
pub open spec fn not_digit(b: u8) -> bool {
    !(48 <= b <= 57)
}

/// The same bytes in front of two sequences can be taken off.
pub proof fn lemma_strip(p: Seq<u8>, x: Seq<u8>, y: Seq<u8>)
    requires
        p + x == p + y,
    ensures
        x == y,
{
    assert(x =~= (p + x).subrange(p.len() as int, (p + x).len() as int));
    assert(y =~= (p + y).subrange(p.len() as int, (p + y).len() as int));
}

/// Pieces from `k` on, followed by `x`, are piece `k` followed by the rest.
pub proof fn lemma_peel(pieces: Seq<Seq<u8>>, x: Seq<u8>, k: int)
    requires
        0 <= k < pieces.len(),
    ensures
        concat(pieces.subrange(k, pieces.len() as int)) + x
            == pieces[k] + (concat(pieces.subrange(k + 1, pieces.len() as int)) + x),
{
    lemma_concat_step(pieces, k);
    lemma_concat_associative(pieces[k], concat(pieces.subrange(k + 1, pieces.len() as int)), x);
}

/// All the pieces followed by `x`, and no pieces followed by `x`.
pub proof fn lemma_peel_ends(pieces: Seq<Seq<u8>>, x: Seq<u8>)
    ensures
        concat(pieces.subrange(0, pieces.len() as int)) + x == concat(pieces) + x,
        concat(pieces.subrange(pieces.len() as int, pieces.len() as int)) + x == x,
{
    assert(pieces.subrange(0, pieces.len() as int) =~= pieces);
    assert(pieces.subrange(pieces.len() as int, pieces.len() as int) =~= Seq::<Seq<u8>>::empty());
    assert(concat(Seq::<Seq<u8>>::empty()) + x =~= x);
}

/// The hex digit of a nibble is one of the sixteen, and tells the nibble.
proof fn lemma_hex_digit_byte(a: int, b: int)
    requires
        0 <= a < 16,
        0 <= b < 16,
        hex_digit_byte(a) == hex_digit_byte(b),
    ensures
        a == b,
{
}

/// Where the escape of a byte starts with a backslash, and where it is the
/// byte itself.
proof fn lemma_escaped_byte_shape(b: u8)
    ensures
        escaped_byte(b).len() >= 1,
        escaped_byte(b)[0] != 34,
        escaped_byte(b)[0] == 92 <==> (b == 34 || b == 92 || b < 32),
        !(b == 34 || b == 92 || b < 32) ==> escaped_byte(b) == seq![b],
        escaped_byte(b)[0] == 92 ==> escaped_byte(b).len() >= 2,
{
}

/// The escape of a byte, followed by anything, tells the byte.
proof fn lemma_escaped_byte_unique(a: u8, b: u8, x: Seq<u8>, y: Seq<u8>)
    requires
        escaped_byte(a) + x == escaped_byte(b) + y,
    ensures
        a == b,
        x == y,
{
    let ea = escaped_byte(a);
    let eb = escaped_byte(b);
    let l = ea + x;
    lemma_escaped_byte_shape(a);
    lemma_escaped_byte_shape(b);
    assert(l[0] == ea[0] && l[0] == eb[0]);
    if ea[0] != 92 {
        assert(a == ea[0] && b == eb[0]);
    } else {
        assert(l[1] == ea[1] && l[1] == eb[1]);
        if ea[1] == 117 {
            assert(a < 32 && b < 32);
            assert(l[4] == ea[4] && l[4] == eb[4]);
            assert(l[5] == ea[5] && l[5] == eb[5]);
            lemma_hex_digit_byte(a as int / 16, b as int / 16);
            lemma_hex_digit_byte(a as int % 16, b as int % 16);
        }
    }
    assert(ea == eb);
    lemma_strip(ea, x, y);
}

/// The escaped bytes of a string, then its closing quote, tell the string
/// and what follows.
proof fn lemma_escaped_unique(p: Seq<u8>, q: Seq<u8>, x: Seq<u8>, y: Seq<u8>)
    requires
        escaped(p) + (seq![34u8] + x) == escaped(q) + (seq![34u8] + y),
    ensures
        p == q,
        x == y,
    decreases p.len(),
{
    let lp = escaped(p) + (seq![34u8] + x);
    if p.len() == 0 {
        assert(escaped(p) =~= Seq::<u8>::empty());
        assert(lp[0] == 34);
        if q.len() > 0 {
            lemma_escaped_byte_shape(q[0]);
            lemma_concat_associative(escaped_byte(q[0]), escaped(q.drop_first()), seq![34u8] + y);
            assert(lp[0] == escaped_byte(q[0])[0]);
        }
        assert(escaped(q) =~= Seq::<u8>::empty());
        assert(lp =~= seq![34u8] + x);
        lemma_strip(seq![34u8], x, y);
        assert(p =~= q);
    } else {
        lemma_escaped_byte_shape(p[0]);
        lemma_concat_associative(escaped_byte(p[0]), escaped(p.drop_first()), seq![34u8] + x);
        if q.len() == 0 {
            assert(escaped(q) =~= Seq::<u8>::empty());
            assert(lp[0] == escaped_byte(p[0])[0]);
            assert(false);
        }
        lemma_concat_associative(escaped_byte(q[0]), escaped(q.drop_first()), seq![34u8] + y);
        lemma_escaped_byte_unique(
            p[0],
            q[0],
            escaped(p.drop_first()) + (seq![34u8] + x),
            escaped(q.drop_first()) + (seq![34u8] + y),
        );
        lemma_escaped_unique(p.drop_first(), q.drop_first(), x, y);
        assert(p =~= seq![p[0]] + p.drop_first());
        assert(q =~= seq![q[0]] + q.drop_first());
    }
}

/// A JSON string, followed by anything, tells the string and what follows.
pub proof fn lemma_json_string_unique(s: Seq<char>, t: Seq<char>, x: Seq<u8>, y: Seq<u8>)
    requires
        json_string(s) + x == json_string(t) + y,
    ensures
        s == t,
        x == y,
{
    let es = escaped(encode_utf8(s));
    let et = escaped(encode_utf8(t));
    assert(json_string(s) + x =~= seq![34u8] + (es + (seq![34u8] + x)));
    assert(json_string(t) + y =~= seq![34u8] + (et + (seq![34u8] + y)));
    lemma_strip(seq![34u8], es + (seq![34u8] + x), et + (seq![34u8] + y));
    lemma_escaped_unique(encode_utf8(s), encode_utf8(t), x, y);
    encode_utf8_decode_utf8(s);
    encode_utf8_decode_utf8(t);
}

/// A JSON string starts with a quote.
pub proof fn lemma_json_string_first(s: Seq<char>)
    ensures
        json_string(s).len() >= 2,
        json_string(s)[0] == 34,
{
}

/// The digits of a number are ASCII digits, at least one, and spell it.
pub proof fn lemma_decimal_digits(n: nat)
    ensures
        decimal(n).len() >= 1,
        all_digits(decimal(n)),
        digits_value(decimal(n)) == n,
    decreases n,
{
    if n < 10 {
        assert(decimal(n).drop_last() =~= Seq::<u8>::empty());
        assert(digits_value(Seq::<u8>::empty()) == 0);
        assert(digits_value(decimal(n)) == digits_value(decimal(n).drop_last()) * 10 + (decimal(n).last() - 48) as nat);
    } else {
        lemma_decimal_digits(n / 10);
        assert(decimal(n).drop_last() =~= decimal(n / 10));
        assert(decimal(n).last() == (48 + n % 10) as u8);
        assert(digits_value(decimal(n)) == digits_value(decimal(n).drop_last()) * 10 + (decimal(n).last() - 48) as nat);
        assert(all_digits(decimal(n))) by {
            assert forall|i: int| 0 <= i < decimal(n).len() implies 48 <= #[trigger] decimal(n)[i] <= 57 by {
                if i < decimal(n).len() - 1 {
                    assert(decimal(n)[i] == decimal(n / 10)[i]);
                }
            }
        }
    }
}

/// The digits of a number, followed by a byte that is no digit, tell the
/// number and what follows.
pub proof fn lemma_decimal_unique(n: nat, m: nat, x: Seq<u8>, y: Seq<u8>)
    requires
        decimal(n) + x == decimal(m) + y,
        x.len() > 0 && not_digit(x[0]),
        y.len() > 0 && not_digit(y[0]),
    ensures
        n == m,
        x == y,
{
    let dn = decimal(n);
    let dm = decimal(m);
    let l = dn + x;
    lemma_decimal_digits(n);
    lemma_decimal_digits(m);
    if dn.len() < dm.len() {
        assert(l[dn.len() as int] == x[0]);
        assert(l[dn.len() as int] == dm[dn.len() as int]);
        assert(false);
    }
    if dm.len() < dn.len() {
        assert(l[dm.len() as int] == y[0]);
        assert(l[dm.len() as int] == dn[dm.len() as int]);
        assert(false);
    }
    assert(dn =~= l.subrange(0, dn.len() as int));
    assert(dm =~= l.subrange(0, dm.len() as int));
    lemma_strip(dn, x, y);
}

/// The items of an integer array, read from the front.
proof fn lemma_decimal_items_front(a: Seq<usize>)
    requires
        a.len() >= 1,
    ensures
        decimal_items(a) == decimal(a[0] as nat) + (if a.len() == 1 {
            Seq::<u8>::empty()
        } else {
            seq![44u8] + decimal_items(a.drop_first())
        }),
    decreases a.len(),
{
    if a.len() == 1 {
        assert(decimal_items(a) =~= decimal(a[0] as nat) + Seq::<u8>::empty());
    } else if a.len() == 2 {
        assert(a.drop_last().len() == 1 && a.drop_last()[0] == a[0]);
        assert(a.drop_first().len() == 1 && a.drop_first()[0] == a[1]);
        assert(decimal_items(a.drop_last()) == decimal(a[0] as nat));
        assert(decimal_items(a.drop_first()) == decimal(a[1] as nat));
        assert(decimal_items(a) == decimal_items(a.drop_last()) + seq![44u8] + decimal(a.last() as nat));
        assert(decimal_items(a) =~= decimal(a[0] as nat) + (seq![44u8] + decimal_items(a.drop_first())));
    } else {
        lemma_decimal_items_front(a.drop_last());
        assert(a.drop_last().drop_first() =~= a.drop_first().drop_last());
        assert(a.drop_last()[0] == a[0]);
        assert(a.drop_first().last() == a.last());
        assert(decimal_items(a.drop_first()) == decimal_items(a.drop_first().drop_last()) + seq![44u8]
            + decimal(a.drop_first().last() as nat));
        assert(decimal_items(a) == decimal_items(a.drop_last()) + seq![44u8] + decimal(a.last() as nat));
        let m = decimal_items(a.drop_first().drop_last());
        assert(a.drop_last().len() >= 2);
        assert(decimal_items(a.drop_last().drop_first()) == m);
        assert(decimal_items(a.drop_last()) == decimal(a[0] as nat) + (seq![44u8] + m));
        assert(decimal_items(a) =~= decimal(a[0] as nat) + (seq![44u8] + decimal_items(a.drop_first())));
    }
}

/// The items of an integer array, then `]`, tell the items and what follows.
proof fn lemma_decimal_items_unique(a: Seq<usize>, b: Seq<usize>, x: Seq<u8>, y: Seq<u8>)
    requires
        decimal_items(a) + (seq![93u8] + x) == decimal_items(b) + (seq![93u8] + y),
    ensures
        a == b,
        x == y,
    decreases a.len(),
{
    let la = decimal_items(a) + (seq![93u8] + x);
    if a.len() == 0 || b.len() == 0 {
        if a.len() > 0 {
            lemma_decimal_items_front(a);
            lemma_decimal_digits(a[0] as nat);
            let ta = if a.len() == 1 { Seq::<u8>::empty() } else { seq![44u8] + decimal_items(a.drop_first()) };
            lemma_concat_associative(decimal(a[0] as nat), ta, seq![93u8] + x);
            assert(la[0] == decimal(a[0] as nat)[0]);
            assert(decimal_items(b) =~= Seq::<u8>::empty());
            assert(false);
        }
        if b.len() > 0 {
            lemma_decimal_items_front(b);
            lemma_decimal_digits(b[0] as nat);
            let tb = if b.len() == 1 { Seq::<u8>::empty() } else { seq![44u8] + decimal_items(b.drop_first()) };
            lemma_concat_associative(decimal(b[0] as nat), tb, seq![93u8] + y);
            assert(la[0] == decimal(b[0] as nat)[0]);
            assert(decimal_items(a) =~= Seq::<u8>::empty());
            assert(false);
        }
        assert(decimal_items(a) =~= Seq::<u8>::empty());
        assert(decimal_items(b) =~= Seq::<u8>::empty());
        assert(la =~= seq![93u8] + x);
        lemma_strip(seq![93u8], x, y);
        assert(a =~= b);
    } else {
        lemma_decimal_items_front(a);
        lemma_decimal_items_front(b);
        let ta = if a.len() == 1 { Seq::<u8>::empty() } else { seq![44u8] + decimal_items(a.drop_first()) };
        let tb = if b.len() == 1 { Seq::<u8>::empty() } else { seq![44u8] + decimal_items(b.drop_first()) };
        lemma_concat_associative(decimal(a[0] as nat), ta, seq![93u8] + x);
        lemma_concat_associative(decimal(b[0] as nat), tb, seq![93u8] + y);
        let ra = ta + (seq![93u8] + x);
        let rb = tb + (seq![93u8] + y);
        assert(ra[0] == 44 || ra[0] == 93);
        assert(rb[0] == 44 || rb[0] == 93);
        lemma_decimal_unique(a[0] as nat, b[0] as nat, ra, rb);
        if a.len() == 1 && b.len() == 1 {
            assert(ra =~= seq![93u8] + x);
            assert(rb =~= seq![93u8] + y);
            lemma_strip(seq![93u8], x, y);
        } else if a.len() == 1 {
            assert(ra[0] == 93 && rb[0] == 44);
            assert(false);
        } else if b.len() == 1 {
            assert(ra[0] == 44 && rb[0] == 93);
            assert(false);
        } else {
            assert(ra =~= seq![44u8] + (decimal_items(a.drop_first()) + (seq![93u8] + x)));
            assert(rb =~= seq![44u8] + (decimal_items(b.drop_first()) + (seq![93u8] + y)));
            lemma_strip(
                seq![44u8],
                decimal_items(a.drop_first()) + (seq![93u8] + x),
                decimal_items(b.drop_first()) + (seq![93u8] + y),
            );
            lemma_decimal_items_unique(a.drop_first(), b.drop_first(), x, y);
        }
        assert(a =~= seq![a[0]] + a.drop_first());
        assert(b =~= seq![b[0]] + b.drop_first());
    }
}

/// A JSON array of integers, followed by anything, tells the integers and
/// what follows.
pub proof fn lemma_json_usizes_unique(a: Seq<usize>, b: Seq<usize>, x: Seq<u8>, y: Seq<u8>)
    requires
        json_usizes(a) + x == json_usizes(b) + y,
    ensures
        a == b,
        x == y,
{
    assert(json_usizes(a) + x =~= seq![91u8] + (decimal_items(a) + (seq![93u8] + x)));
    assert(json_usizes(b) + y =~= seq![91u8] + (decimal_items(b) + (seq![93u8] + y)));
    lemma_strip(seq![91u8], decimal_items(a) + (seq![93u8] + x), decimal_items(b) + (seq![93u8] + y));
    lemma_decimal_items_unique(a, b, x, y);
}

/// The items of a string array, read from the front.
proof fn lemma_string_items_front(a: Seq<Seq<char>>)
    requires
        a.len() >= 1,
    ensures
        string_items(a) == json_string(a[0]) + (if a.len() == 1 {
            Seq::<u8>::empty()
        } else {
            seq![44u8] + string_items(a.drop_first())
        }),
    decreases a.len(),
{
    if a.len() == 1 {
        assert(string_items(a) =~= json_string(a[0]) + Seq::<u8>::empty());
    } else if a.len() == 2 {
        assert(a.drop_last().len() == 1 && a.drop_last()[0] == a[0]);
        assert(a.drop_first().len() == 1 && a.drop_first()[0] == a[1]);
        assert(string_items(a.drop_last()) == json_string(a[0]));
        assert(string_items(a.drop_first()) == json_string(a[1]));
        assert(string_items(a) == string_items(a.drop_last()) + seq![44u8] + json_string(a.last()));
        assert(string_items(a) =~= json_string(a[0]) + (seq![44u8] + string_items(a.drop_first())));
    } else {
        lemma_string_items_front(a.drop_last());
        assert(a.drop_last().drop_first() =~= a.drop_first().drop_last());
        assert(a.drop_last()[0] == a[0]);
        assert(a.drop_first().last() == a.last());
        assert(string_items(a.drop_first()) == string_items(a.drop_first().drop_last()) + seq![44u8]
            + json_string(a.drop_first().last()));
        assert(string_items(a) == string_items(a.drop_last()) + seq![44u8] + json_string(a.last()));
        let m = string_items(a.drop_first().drop_last());
        assert(a.drop_last().len() >= 2);
        assert(string_items(a.drop_last().drop_first()) == m);
        assert(string_items(a.drop_last()) == json_string(a[0]) + (seq![44u8] + m));
        assert(string_items(a) =~= json_string(a[0]) + (seq![44u8] + string_items(a.drop_first())));
    }
}

/// The items of a string array, then `]`, tell the items and what follows.
proof fn lemma_string_items_unique(a: Seq<Seq<char>>, b: Seq<Seq<char>>, x: Seq<u8>, y: Seq<u8>)
    requires
        string_items(a) + (seq![93u8] + x) == string_items(b) + (seq![93u8] + y),
    ensures
        a == b,
        x == y,
    decreases a.len(),
{
    let la = string_items(a) + (seq![93u8] + x);
    if a.len() == 0 || b.len() == 0 {
        if a.len() > 0 {
            lemma_string_items_front(a);
            lemma_json_string_first(a[0]);
            let ta = if a.len() == 1 { Seq::<u8>::empty() } else { seq![44u8] + string_items(a.drop_first()) };
            lemma_concat_associative(json_string(a[0]), ta, seq![93u8] + x);
            assert(la[0] == json_string(a[0])[0]);
            assert(string_items(b) =~= Seq::<u8>::empty());
            assert(false);
        }
        if b.len() > 0 {
            lemma_string_items_front(b);
            lemma_json_string_first(b[0]);
            let tb = if b.len() == 1 { Seq::<u8>::empty() } else { seq![44u8] + string_items(b.drop_first()) };
            lemma_concat_associative(json_string(b[0]), tb, seq![93u8] + y);
            assert(la[0] == json_string(b[0])[0]);
            assert(string_items(a) =~= Seq::<u8>::empty());
            assert(false);
        }
        assert(string_items(a) =~= Seq::<u8>::empty());
        assert(string_items(b) =~= Seq::<u8>::empty());
        assert(la =~= seq![93u8] + x);
        lemma_strip(seq![93u8], x, y);
        assert(a =~= b);
    } else {
        lemma_string_items_front(a);
        lemma_string_items_front(b);
        let ta = if a.len() == 1 { Seq::<u8>::empty() } else { seq![44u8] + string_items(a.drop_first()) };
        let tb = if b.len() == 1 { Seq::<u8>::empty() } else { seq![44u8] + string_items(b.drop_first()) };
        lemma_concat_associative(json_string(a[0]), ta, seq![93u8] + x);
        lemma_concat_associative(json_string(b[0]), tb, seq![93u8] + y);
        let ra = ta + (seq![93u8] + x);
        let rb = tb + (seq![93u8] + y);
        lemma_json_string_unique(a[0], b[0], ra, rb);
        if a.len() == 1 && b.len() == 1 {
            assert(ra =~= seq![93u8] + x);
            assert(rb =~= seq![93u8] + y);
            lemma_strip(seq![93u8], x, y);
        } else if a.len() == 1 {
            assert(ra[0] == 93 && rb[0] == 44);
            assert(false);
        } else if b.len() == 1 {
            assert(ra[0] == 44 && rb[0] == 93);
            assert(false);
        } else {
            assert(ra =~= seq![44u8] + (string_items(a.drop_first()) + (seq![93u8] + x)));
            assert(rb =~= seq![44u8] + (string_items(b.drop_first()) + (seq![93u8] + y)));
            lemma_strip(
                seq![44u8],
                string_items(a.drop_first()) + (seq![93u8] + x),
                string_items(b.drop_first()) + (seq![93u8] + y),
            );
            lemma_string_items_unique(a.drop_first(), b.drop_first(), x, y);
        }
        assert(a =~= seq![a[0]] + a.drop_first());
        assert(b =~= seq![b[0]] + b.drop_first());
    }
}

/// A JSON array of strings, followed by anything, tells the strings and what
/// follows.
pub proof fn lemma_json_strings_unique(a: Seq<Seq<char>>, b: Seq<Seq<char>>, x: Seq<u8>, y: Seq<u8>)
    requires
        json_strings(a) + x == json_strings(b) + y,
    ensures
        a == b,
        x == y,
{
    assert(json_strings(a) + x =~= seq![91u8] + (string_items(a) + (seq![93u8] + x)));
    assert(json_strings(b) + y =~= seq![91u8] + (string_items(b) + (seq![93u8] + y)));
    lemma_strip(seq![91u8], string_items(a) + (seq![93u8] + x), string_items(b) + (seq![93u8] + y));
    lemma_string_items_unique(a, b, x, y);
}

/// The bytes of `null`.
proof fn lemma_null_bytes()
    ensures
        "null".spec_bytes() == seq![110u8, 117u8, 108u8, 108u8],
{
    reveal_strlit("null");
    is_ascii_chars_encode_utf8("null"@);
    assert("null".spec_bytes() =~= seq![110u8, 117u8, 108u8, 108u8]);
}

/// An optional JSON string, followed by anything, tells the option and what
/// follows.
pub proof fn lemma_json_opt_string_unique(a: Option<Seq<char>>, b: Option<Seq<char>>, x: Seq<u8>, y: Seq<u8>)
    requires
        json_opt_string(a) + x == json_opt_string(b) + y,
    ensures
        a == b,
        x == y,
{
    lemma_null_bytes();
    let l = json_opt_string(a) + x;
    match (a, b) {
        (None, None) => {
            lemma_strip("null".spec_bytes(), x, y);
        },
        (Some(s), Some(t)) => {
            lemma_json_string_unique(s, t, x, y);
        },
        (Some(s), None) => {
            lemma_json_string_first(s);
            assert(l[0] == 34 && l[0] == 110);
        },
        (None, Some(t)) => {
            lemma_json_string_first(t);
            assert(l[0] == 110 && l[0] == 34);
        },
    }
}

/// An optional JSON integer, followed by a byte that is no digit, tells the
/// option and what follows.
pub proof fn lemma_json_opt_u64_unique(a: Option<u64>, b: Option<u64>, x: Seq<u8>, y: Seq<u8>)
    requires
        json_opt_u64(a) + x == json_opt_u64(b) + y,
        x.len() > 0 && not_digit(x[0]),
        y.len() > 0 && not_digit(y[0]),
    ensures
        a == b,
        x == y,
{
    lemma_null_bytes();
    let l = json_opt_u64(a) + x;
    match (a, b) {
        (None, None) => {
            lemma_strip("null".spec_bytes(), x, y);
        },
        (Some(s), Some(t)) => {
            lemma_decimal_unique(s as nat, t as nat, x, y);
        },
        (Some(s), None) => {
            lemma_decimal_digits(s as nat);
            assert(l[0] == decimal(s as nat)[0] && l[0] == 110);
        },
        (None, Some(t)) => {
            lemma_decimal_digits(t as nat);
            assert(l[0] == 110 && l[0] == decimal(t as nat)[0]);
        },
    }
}

/// Different job states have different names.
pub proof fn lemma_job_state_name_unique(s: JobState, t: JobState)
    requires
        job_state_name(s) == job_state_name(t),
    ensures
        s == t,
{
    reveal_strlit("open");
    reveal_strlit("forming");
    reveal_strlit("running");
    reveal_strlit("finished");
    reveal_strlit("failed");
    assert("open"@.len() == 4 && "forming"@.len() == 7 && "running"@.len() == 7 && "finished"@.len() == 8
        && "failed"@.len() == 6);
    assert("forming"@[0] != "running"@[0]);
}

/// The canonical JSON of an attestation blob, followed by anything, tells the blob
/// and what follows.
#[verifier::rlimit(100)]
pub proof fn lemma_attestation_json_unique(a: SpecAttestationBlob, b: SpecAttestationBlob, x: Seq<u8>, y: Seq<u8>)
    requires
        attestation_json(a) + x == attestation_json(b) + y,
    ensures
        a == b,
        x == y,
{
    let pa = Seq::<Seq<u8>>::empty()
        .push("{\"quote_hex\":".spec_bytes())
        .push(json_string(a.quote_hex))
        .push(",\"collateral_json\":".spec_bytes())
        .push(json_string(a.collateral_json))
        .push(",\"event_log\":".spec_bytes())
        .push(json_string(a.event_log))
        .push("}".spec_bytes());
    let pb = Seq::<Seq<u8>>::empty()
        .push("{\"quote_hex\":".spec_bytes())
        .push(json_string(b.quote_hex))
        .push(",\"collateral_json\":".spec_bytes())
        .push(json_string(b.collateral_json))
        .push(",\"event_log\":".spec_bytes())
        .push(json_string(b.event_log))
        .push("}".spec_bytes());
    let n = pa.len() as int;
    assert(n == 7 && pb.len() == 7);
    lemma_peel_ends(pa, x);
    lemma_peel_ends(pb, y);
    assert(concat(pa.subrange(1, n)) + x == concat(pb.subrange(1, n)) + y) by {
        lemma_peel(pa, x, 0);
        lemma_peel(pb, y, 0);
        let ta = concat(pa.subrange(1, n)) + x;
        let tb = concat(pb.subrange(1, n)) + y;
        assert(pa[0] == pb[0] && pa[0] == "{\"quote_hex\":".spec_bytes());
        lemma_strip(pa[0], ta, tb);
    }
    assert(concat(pa.subrange(2, n)) + x == concat(pb.subrange(2, n)) + y && a.quote_hex == b.quote_hex) by {
        lemma_peel(pa, x, 1);
        lemma_peel(pb, y, 1);
        let ta = concat(pa.subrange(2, n)) + x;
        let tb = concat(pb.subrange(2, n)) + y;
        assert(pa[1] == json_string(a.quote_hex) && pb[1] == json_string(b.quote_hex));
        lemma_json_string_unique(a.quote_hex, b.quote_hex, ta, tb);
    }
    assert(concat(pa.subrange(3, n)) + x == concat(pb.subrange(3, n)) + y) by {
        lemma_peel(pa, x, 2);
        lemma_peel(pb, y, 2);
        let ta = concat(pa.subrange(3, n)) + x;
        let tb = concat(pb.subrange(3, n)) + y;
        assert(pa[2] == pb[2] && pa[2] == ",\"collateral_json\":".spec_bytes());
        lemma_strip(pa[2], ta, tb);
    }
    assert(concat(pa.subrange(4, n)) + x == concat(pb.subrange(4, n)) + y && a.collateral_json == b.collateral_json) by {
        lemma_peel(pa, x, 3);
        lemma_peel(pb, y, 3);
        let ta = concat(pa.subrange(4, n)) + x;
        let tb = concat(pb.subrange(4, n)) + y;
        assert(pa[3] == json_string(a.collateral_json) && pb[3] == json_string(b.collateral_json));
        lemma_json_string_unique(a.collateral_json, b.collateral_json, ta, tb);
    }
    assert(concat(pa.subrange(5, n)) + x == concat(pb.subrange(5, n)) + y) by {
        lemma_peel(pa, x, 4);
        lemma_peel(pb, y, 4);
        let ta = concat(pa.subrange(5, n)) + x;
        let tb = concat(pb.subrange(5, n)) + y;
        assert(pa[4] == pb[4] && pa[4] == ",\"event_log\":".spec_bytes());
        lemma_strip(pa[4], ta, tb);
    }
    assert(concat(pa.subrange(6, n)) + x == concat(pb.subrange(6, n)) + y && a.event_log == b.event_log) by {
        lemma_peel(pa, x, 5);
        lemma_peel(pb, y, 5);
        let ta = concat(pa.subrange(6, n)) + x;
        let tb = concat(pb.subrange(6, n)) + y;
        assert(pa[5] == json_string(a.event_log) && pb[5] == json_string(b.event_log));
        lemma_json_string_unique(a.event_log, b.event_log, ta, tb);
    }
    assert(concat(pa.subrange(7, n)) + x == concat(pb.subrange(7, n)) + y) by {
        lemma_peel(pa, x, 6);
        lemma_peel(pb, y, 6);
        let ta = concat(pa.subrange(7, n)) + x;
        let tb = concat(pb.subrange(7, n)) + y;
        assert(pa[6] == pb[6] && pa[6] == "}".spec_bytes());
        lemma_strip(pa[6], ta, tb);
    }
}

/// The canonical JSON of a job policy, followed by anything, tells the policy
/// and what follows.
#[verifier::rlimit(100)]
pub proof fn lemma_policy_json_unique(a: SpecJobPolicy, b: SpecJobPolicy, x: Seq<u8>, y: Seq<u8>)
    requires
        policy_json(a) + x == policy_json(b) + y,
    ensures
        a == b,
        x == y,
{
    let pa = Seq::<Seq<u8>>::empty()
        .push("{\"allowed_measurements\":".spec_bytes())
        .push(json_strings(a.allowed_measurements))
        .push(",\"allowed_compose_hashes\":".spec_bytes())
        .push(json_strings(a.allowed_compose_hashes))
        .push("}".spec_bytes());
    let pb = Seq::<Seq<u8>>::empty()
        .push("{\"allowed_measurements\":".spec_bytes())
        .push(json_strings(b.allowed_measurements))
        .push(",\"allowed_compose_hashes\":".spec_bytes())
        .push(json_strings(b.allowed_compose_hashes))
        .push("}".spec_bytes());
    let n = pa.len() as int;
    assert(n == 5 && pb.len() == 5);
    lemma_peel_ends(pa, x);
    lemma_peel_ends(pb, y);
    assert(concat(pa.subrange(1, n)) + x == concat(pb.subrange(1, n)) + y) by {
        lemma_peel(pa, x, 0);
        lemma_peel(pb, y, 0);
        let ta = concat(pa.subrange(1, n)) + x;
        let tb = concat(pb.subrange(1, n)) + y;
        assert(pa[0] == pb[0] && pa[0] == "{\"allowed_measurements\":".spec_bytes());
        lemma_strip(pa[0], ta, tb);
    }
    assert(concat(pa.subrange(2, n)) + x == concat(pb.subrange(2, n)) + y && a.allowed_measurements == b.allowed_measurements) by {
        lemma_peel(pa, x, 1);
        lemma_peel(pb, y, 1);
        let ta = concat(pa.subrange(2, n)) + x;
        let tb = concat(pb.subrange(2, n)) + y;
        assert(pa[1] == json_strings(a.allowed_measurements) && pb[1] == json_strings(b.allowed_measurements));
        lemma_json_strings_unique(a.allowed_measurements, b.allowed_measurements, ta, tb);
    }
    assert(concat(pa.subrange(3, n)) + x == concat(pb.subrange(3, n)) + y) by {
        lemma_peel(pa, x, 2);
        lemma_peel(pb, y, 2);
        let ta = concat(pa.subrange(3, n)) + x;
        let tb = concat(pb.subrange(3, n)) + y;
        assert(pa[2] == pb[2] && pa[2] == ",\"allowed_compose_hashes\":".spec_bytes());
        lemma_strip(pa[2], ta, tb);
    }
    assert(concat(pa.subrange(4, n)) + x == concat(pb.subrange(4, n)) + y && a.allowed_compose_hashes == b.allowed_compose_hashes) by {
        lemma_peel(pa, x, 3);
        lemma_peel(pb, y, 3);
        let ta = concat(pa.subrange(4, n)) + x;
        let tb = concat(pb.subrange(4, n)) + y;
        assert(pa[3] == json_strings(a.allowed_compose_hashes) && pb[3] == json_strings(b.allowed_compose_hashes));
        lemma_json_strings_unique(a.allowed_compose_hashes, b.allowed_compose_hashes, ta, tb);
    }
    assert(concat(pa.subrange(5, n)) + x == concat(pb.subrange(5, n)) + y) by {
        lemma_peel(pa, x, 4);
        lemma_peel(pb, y, 4);
        let ta = concat(pa.subrange(5, n)) + x;
        let tb = concat(pb.subrange(5, n)) + y;
        assert(pa[4] == pb[4] && pa[4] == "}".spec_bytes());
        lemma_strip(pa[4], ta, tb);
    }
}

/// The canonical JSON of a node record, followed by anything, tells the record
/// and what follows.
#[verifier::rlimit(100)]
pub proof fn lemma_node_json_unique(a: SpecNodeRecord, b: SpecNodeRecord, x: Seq<u8>, y: Seq<u8>)
    requires
        node_json(a) + x == node_json(b) + y,
    ensures
        a == b,
        x == y,
{
    let pa = Seq::<Seq<u8>>::empty()
        .push("{\"node_id\":".spec_bytes())
        .push(json_string(a.node_id))
        .push(",\"pubkey\":".spec_bytes())
        .push(json_string(a.pubkey))
        .push(",\"endpoint\":".spec_bytes())
        .push(json_string(a.endpoint))
        .push(",\"max_parties\":".spec_bytes())
        .push(decimal(a.max_parties as nat))
        .push(",\"supported_thresholds\":".spec_bytes())
        .push(json_usizes(a.supported_thresholds))
        .push(",\"operator_label\":".spec_bytes())
        .push(json_string(a.operator_label))
        .push(",\"attestation\":".spec_bytes())
        .push(attestation_json(a.attestation))
        .push(",\"announced_at\":".spec_bytes())
        .push(decimal(a.announced_at as nat))
        .push(",\"signature\":".spec_bytes())
        .push(json_string(a.signature))
        .push("}".spec_bytes());
    let pb = Seq::<Seq<u8>>::empty()
        .push("{\"node_id\":".spec_bytes())
        .push(json_string(b.node_id))
        .push(",\"pubkey\":".spec_bytes())
        .push(json_string(b.pubkey))
        .push(",\"endpoint\":".spec_bytes())
        .push(json_string(b.endpoint))
        .push(",\"max_parties\":".spec_bytes())
        .push(decimal(b.max_parties as nat))
        .push(",\"supported_thresholds\":".spec_bytes())
        .push(json_usizes(b.supported_thresholds))
        .push(",\"operator_label\":".spec_bytes())
        .push(json_string(b.operator_label))
        .push(",\"attestation\":".spec_bytes())
        .push(attestation_json(b.attestation))
        .push(",\"announced_at\":".spec_bytes())
        .push(decimal(b.announced_at as nat))
        .push(",\"signature\":".spec_bytes())
        .push(json_string(b.signature))
        .push("}".spec_bytes());
    let n = pa.len() as int;
    assert(n == 19 && pb.len() == 19);
    lemma_peel_ends(pa, x);
    lemma_peel_ends(pb, y);
    assert(concat(pa.subrange(1, n)) + x == concat(pb.subrange(1, n)) + y) by {
        lemma_peel(pa, x, 0);
        lemma_peel(pb, y, 0);
        let ta = concat(pa.subrange(1, n)) + x;
        let tb = concat(pb.subrange(1, n)) + y;
        assert(pa[0] == pb[0] && pa[0] == "{\"node_id\":".spec_bytes());
        lemma_strip(pa[0], ta, tb);
    }
    assert(concat(pa.subrange(2, n)) + x == concat(pb.subrange(2, n)) + y && a.node_id == b.node_id) by {
        lemma_peel(pa, x, 1);
        lemma_peel(pb, y, 1);
        let ta = concat(pa.subrange(2, n)) + x;
        let tb = concat(pb.subrange(2, n)) + y;
        assert(pa[1] == json_string(a.node_id) && pb[1] == json_string(b.node_id));
        lemma_json_string_unique(a.node_id, b.node_id, ta, tb);
    }
    assert(concat(pa.subrange(3, n)) + x == concat(pb.subrange(3, n)) + y) by {
        lemma_peel(pa, x, 2);
        lemma_peel(pb, y, 2);
        let ta = concat(pa.subrange(3, n)) + x;
        let tb = concat(pb.subrange(3, n)) + y;
        assert(pa[2] == pb[2] && pa[2] == ",\"pubkey\":".spec_bytes());
        lemma_strip(pa[2], ta, tb);
    }
    assert(concat(pa.subrange(4, n)) + x == concat(pb.subrange(4, n)) + y && a.pubkey == b.pubkey) by {
        lemma_peel(pa, x, 3);
        lemma_peel(pb, y, 3);
        let ta = concat(pa.subrange(4, n)) + x;
        let tb = concat(pb.subrange(4, n)) + y;
        assert(pa[3] == json_string(a.pubkey) && pb[3] == json_string(b.pubkey));
        lemma_json_string_unique(a.pubkey, b.pubkey, ta, tb);
    }
    assert(concat(pa.subrange(5, n)) + x == concat(pb.subrange(5, n)) + y) by {
        lemma_peel(pa, x, 4);
        lemma_peel(pb, y, 4);
        let ta = concat(pa.subrange(5, n)) + x;
        let tb = concat(pb.subrange(5, n)) + y;
        assert(pa[4] == pb[4] && pa[4] == ",\"endpoint\":".spec_bytes());
        lemma_strip(pa[4], ta, tb);
    }
    assert(concat(pa.subrange(6, n)) + x == concat(pb.subrange(6, n)) + y && a.endpoint == b.endpoint) by {
        lemma_peel(pa, x, 5);
        lemma_peel(pb, y, 5);
        let ta = concat(pa.subrange(6, n)) + x;
        let tb = concat(pb.subrange(6, n)) + y;
        assert(pa[5] == json_string(a.endpoint) && pb[5] == json_string(b.endpoint));
        lemma_json_string_unique(a.endpoint, b.endpoint, ta, tb);
    }
    assert(concat(pa.subrange(7, n)) + x == concat(pb.subrange(7, n)) + y) by {
        lemma_peel(pa, x, 6);
        lemma_peel(pb, y, 6);
        let ta = concat(pa.subrange(7, n)) + x;
        let tb = concat(pb.subrange(7, n)) + y;
        assert(pa[6] == pb[6] && pa[6] == ",\"max_parties\":".spec_bytes());
        lemma_strip(pa[6], ta, tb);
    }
    assert(concat(pa.subrange(8, n)) + x == concat(pb.subrange(8, n)) + y && a.max_parties == b.max_parties) by {
        lemma_peel(pa, x, 7);
        lemma_peel(pb, y, 7);
        let ta = concat(pa.subrange(8, n)) + x;
        let tb = concat(pb.subrange(8, n)) + y;
        reveal_strlit(",\"supported_thresholds\":");
        is_ascii_chars_encode_utf8(",\"supported_thresholds\":"@);
        lemma_peel(pa, x, 8);
        lemma_peel(pb, y, 8);
        assert(pa[8] == ",\"supported_thresholds\":".spec_bytes() && pb[8] == ",\"supported_thresholds\":".spec_bytes());
        assert(not_digit(ta[0]) && not_digit(tb[0]));
        assert(pa[7] == decimal(a.max_parties as nat) && pb[7] == decimal(b.max_parties as nat));
        lemma_decimal_unique(a.max_parties as nat, b.max_parties as nat, ta, tb);
    }
    assert(concat(pa.subrange(9, n)) + x == concat(pb.subrange(9, n)) + y) by {
        lemma_peel(pa, x, 8);
        lemma_peel(pb, y, 8);
        let ta = concat(pa.subrange(9, n)) + x;
        let tb = concat(pb.subrange(9, n)) + y;
        assert(pa[8] == pb[8] && pa[8] == ",\"supported_thresholds\":".spec_bytes());
        lemma_strip(pa[8], ta, tb);
    }
    assert(concat(pa.subrange(10, n)) + x == concat(pb.subrange(10, n)) + y && a.supported_thresholds == b.supported_thresholds) by {
        lemma_peel(pa, x, 9);
        lemma_peel(pb, y, 9);
        let ta = concat(pa.subrange(10, n)) + x;
        let tb = concat(pb.subrange(10, n)) + y;
        assert(pa[9] == json_usizes(a.supported_thresholds) && pb[9] == json_usizes(b.supported_thresholds));
        lemma_json_usizes_unique(a.supported_thresholds, b.supported_thresholds, ta, tb);
    }
    assert(concat(pa.subrange(11, n)) + x == concat(pb.subrange(11, n)) + y) by {
        lemma_peel(pa, x, 10);
        lemma_peel(pb, y, 10);
        let ta = concat(pa.subrange(11, n)) + x;
        let tb = concat(pb.subrange(11, n)) + y;
        assert(pa[10] == pb[10] && pa[10] == ",\"operator_label\":".spec_bytes());
        lemma_strip(pa[10], ta, tb);
    }
    assert(concat(pa.subrange(12, n)) + x == concat(pb.subrange(12, n)) + y && a.operator_label == b.operator_label) by {
        lemma_peel(pa, x, 11);
        lemma_peel(pb, y, 11);
        let ta = concat(pa.subrange(12, n)) + x;
        let tb = concat(pb.subrange(12, n)) + y;
        assert(pa[11] == json_string(a.operator_label) && pb[11] == json_string(b.operator_label));
        lemma_json_string_unique(a.operator_label, b.operator_label, ta, tb);
    }
    assert(concat(pa.subrange(13, n)) + x == concat(pb.subrange(13, n)) + y) by {
        lemma_peel(pa, x, 12);
        lemma_peel(pb, y, 12);
        let ta = concat(pa.subrange(13, n)) + x;
        let tb = concat(pb.subrange(13, n)) + y;
        assert(pa[12] == pb[12] && pa[12] == ",\"attestation\":".spec_bytes());
        lemma_strip(pa[12], ta, tb);
    }
    assert(concat(pa.subrange(14, n)) + x == concat(pb.subrange(14, n)) + y && a.attestation == b.attestation) by {
        lemma_peel(pa, x, 13);
        lemma_peel(pb, y, 13);
        let ta = concat(pa.subrange(14, n)) + x;
        let tb = concat(pb.subrange(14, n)) + y;
        assert(pa[13] == attestation_json(a.attestation) && pb[13] == attestation_json(b.attestation));
        lemma_attestation_json_unique(a.attestation, b.attestation, ta, tb);
    }
    assert(concat(pa.subrange(15, n)) + x == concat(pb.subrange(15, n)) + y) by {
        lemma_peel(pa, x, 14);
        lemma_peel(pb, y, 14);
        let ta = concat(pa.subrange(15, n)) + x;
        let tb = concat(pb.subrange(15, n)) + y;
        assert(pa[14] == pb[14] && pa[14] == ",\"announced_at\":".spec_bytes());
        lemma_strip(pa[14], ta, tb);
    }
    assert(concat(pa.subrange(16, n)) + x == concat(pb.subrange(16, n)) + y && a.announced_at == b.announced_at) by {
        lemma_peel(pa, x, 15);
        lemma_peel(pb, y, 15);
        let ta = concat(pa.subrange(16, n)) + x;
        let tb = concat(pb.subrange(16, n)) + y;
        reveal_strlit(",\"signature\":");
        is_ascii_chars_encode_utf8(",\"signature\":"@);
        lemma_peel(pa, x, 16);
        lemma_peel(pb, y, 16);
        assert(pa[16] == ",\"signature\":".spec_bytes() && pb[16] == ",\"signature\":".spec_bytes());
        assert(not_digit(ta[0]) && not_digit(tb[0]));
        assert(pa[15] == decimal(a.announced_at as nat) && pb[15] == decimal(b.announced_at as nat));
        lemma_decimal_unique(a.announced_at as nat, b.announced_at as nat, ta, tb);
    }
    assert(concat(pa.subrange(17, n)) + x == concat(pb.subrange(17, n)) + y) by {
        lemma_peel(pa, x, 16);
        lemma_peel(pb, y, 16);
        let ta = concat(pa.subrange(17, n)) + x;
        let tb = concat(pb.subrange(17, n)) + y;
        assert(pa[16] == pb[16] && pa[16] == ",\"signature\":".spec_bytes());
        lemma_strip(pa[16], ta, tb);
    }
    assert(concat(pa.subrange(18, n)) + x == concat(pb.subrange(18, n)) + y && a.signature == b.signature) by {
        lemma_peel(pa, x, 17);
        lemma_peel(pb, y, 17);
        let ta = concat(pa.subrange(18, n)) + x;
        let tb = concat(pb.subrange(18, n)) + y;
        assert(pa[17] == json_string(a.signature) && pb[17] == json_string(b.signature));
        lemma_json_string_unique(a.signature, b.signature, ta, tb);
    }
    assert(concat(pa.subrange(19, n)) + x == concat(pb.subrange(19, n)) + y) by {
        lemma_peel(pa, x, 18);
        lemma_peel(pb, y, 18);
        let ta = concat(pa.subrange(19, n)) + x;
        let tb = concat(pb.subrange(19, n)) + y;
        assert(pa[18] == pb[18] && pa[18] == "}".spec_bytes());
        lemma_strip(pa[18], ta, tb);
    }
}

/// The pieces of a job record's canonical JSON.
spec fn job_pieces(v: SpecJobRecord) -> Seq<Seq<u8>> {
    Seq::<Seq<u8>>::empty()
        .push("{\"job_id\":".spec_bytes())
        .push(json_string(v.job_id))
        .push(",\"program_id\":".spec_bytes())
        .push(json_string(v.program_id))
        .push(",\"program_url\":".spec_bytes())
        .push(json_opt_string(v.program_url))
        .push(",\"entry\":".spec_bytes())
        .push(json_string(v.entry))
        .push(",\"n_parties\":".spec_bytes())
        .push(decimal(v.n_parties as nat))
        .push(",\"threshold\":".spec_bytes())
        .push(decimal(v.threshold as nat))
        .push(",\"policy\":".spec_bytes())
        .push(policy_json(v.policy))
        .push(",\"not_before\":".spec_bytes())
        .push(json_opt_u64(v.not_before))
        .push(",\"state\":".spec_bytes())
        .push(job_state_json(v.state))
        .push(",\"proposer\":".spec_bytes())
        .push(json_string(v.proposer))
        .push(",\"created_at\":".spec_bytes())
        .push(decimal(v.created_at as nat))
        .push(",\"signature\":".spec_bytes())
        .push(json_string(v.signature))
        .push("}".spec_bytes())
}

/// Pieces 10 to 12 of a job record's canonical JSON, followed by
/// anything, tell the fields they hold and what follows.
#[verifier::rlimit(100)]
proof fn lemma_job_json_pieces_10_unique(a: SpecJobRecord, b: SpecJobRecord, x: Seq<u8>, y: Seq<u8>)
    requires
        concat(job_pieces(a).subrange(10, 25)) + x == concat(job_pieces(b).subrange(10, 25)) + y,
    ensures
        a.threshold == b.threshold,
        concat(job_pieces(a).subrange(12, 25)) + x == concat(job_pieces(b).subrange(12, 25)) + y,
{
    let pa = job_pieces(a);
    let pb = job_pieces(b);
    let n = pa.len() as int;
    assert(n == 25 && pb.len() == 25);
    lemma_peel_ends(pa, x);
    lemma_peel_ends(pb, y);
    assert(concat(pa.subrange(11, n)) + x == concat(pb.subrange(11, n)) + y) by {
        lemma_peel(pa, x, 10);
        lemma_peel(pb, y, 10);
        let ta = concat(pa.subrange(11, n)) + x;
        let tb = concat(pb.subrange(11, n)) + y;
        assert(pa[10] == pb[10] && pa[10] == ",\"threshold\":".spec_bytes());
        lemma_strip(pa[10], ta, tb);
    }
    assert(concat(pa.subrange(12, n)) + x == concat(pb.subrange(12, n)) + y && a.threshold == b.threshold) by {
        lemma_peel(pa, x, 11);
        lemma_peel(pb, y, 11);
        let ta = concat(pa.subrange(12, n)) + x;
        let tb = concat(pb.subrange(12, n)) + y;
        reveal_strlit(",\"policy\":");
        is_ascii_chars_encode_utf8(",\"policy\":"@);
        lemma_peel(pa, x, 12);
        lemma_peel(pb, y, 12);
        assert(pa[12] == ",\"policy\":".spec_bytes() && pb[12] == ",\"policy\":".spec_bytes());
        assert(not_digit(ta[0]) && not_digit(tb[0]));
        assert(pa[11] == decimal(a.threshold as nat) && pb[11] == decimal(b.threshold as nat));
        lemma_decimal_unique(a.threshold as nat, b.threshold as nat, ta, tb);
    }
}

/// Pieces 12 to 14 of a job record's canonical JSON, followed by
/// anything, tell the fields they hold and what follows.
#[verifier::rlimit(100)]
proof fn lemma_job_json_pieces_12_unique(a: SpecJobRecord, b: SpecJobRecord, x: Seq<u8>, y: Seq<u8>)
    requires
        concat(job_pieces(a).subrange(12, 25)) + x == concat(job_pieces(b).subrange(12, 25)) + y,
    ensures
        a.policy == b.policy,
        concat(job_pieces(a).subrange(14, 25)) + x == concat(job_pieces(b).subrange(14, 25)) + y,
{
    let pa = job_pieces(a);
    let pb = job_pieces(b);
    let n = pa.len() as int;
    assert(n == 25 && pb.len() == 25);
    lemma_peel_ends(pa, x);
    lemma_peel_ends(pb, y);
    assert(concat(pa.subrange(13, n)) + x == concat(pb.subrange(13, n)) + y) by {
        lemma_peel(pa, x, 12);
        lemma_peel(pb, y, 12);
        let ta = concat(pa.subrange(13, n)) + x;
        let tb = concat(pb.subrange(13, n)) + y;
        assert(pa[12] == pb[12] && pa[12] == ",\"policy\":".spec_bytes());
        lemma_strip(pa[12], ta, tb);
    }
    assert(concat(pa.subrange(14, n)) + x == concat(pb.subrange(14, n)) + y && a.policy == b.policy) by {
        lemma_peel(pa, x, 13);
        lemma_peel(pb, y, 13);
        let ta = concat(pa.subrange(14, n)) + x;
        let tb = concat(pb.subrange(14, n)) + y;
        assert(pa[13] == policy_json(a.policy) && pb[13] == policy_json(b.policy));
        lemma_policy_json_unique(a.policy, b.policy, ta, tb);
    }
}

/// Pieces 14 to 16 of a job record's canonical JSON, followed by
/// anything, tell the fields they hold and what follows.
#[verifier::rlimit(100)]
proof fn lemma_job_json_pieces_14_unique(a: SpecJobRecord, b: SpecJobRecord, x: Seq<u8>, y: Seq<u8>)
    requires
        concat(job_pieces(a).subrange(14, 25)) + x == concat(job_pieces(b).subrange(14, 25)) + y,
    ensures
        a.not_before == b.not_before,
        concat(job_pieces(a).subrange(16, 25)) + x == concat(job_pieces(b).subrange(16, 25)) + y,
{
    let pa = job_pieces(a);
    let pb = job_pieces(b);
    let n = pa.len() as int;
    assert(n == 25 && pb.len() == 25);
    lemma_peel_ends(pa, x);
    lemma_peel_ends(pb, y);
    assert(concat(pa.subrange(15, n)) + x == concat(pb.subrange(15, n)) + y) by {
        lemma_peel(pa, x, 14);
        lemma_peel(pb, y, 14);
        let ta = concat(pa.subrange(15, n)) + x;
        let tb = concat(pb.subrange(15, n)) + y;
        assert(pa[14] == pb[14] && pa[14] == ",\"not_before\":".spec_bytes());
        lemma_strip(pa[14], ta, tb);
    }
    assert(concat(pa.subrange(16, n)) + x == concat(pb.subrange(16, n)) + y && a.not_before == b.not_before) by {
        lemma_peel(pa, x, 15);
        lemma_peel(pb, y, 15);
        let ta = concat(pa.subrange(16, n)) + x;
        let tb = concat(pb.subrange(16, n)) + y;
        reveal_strlit(",\"state\":");
        is_ascii_chars_encode_utf8(",\"state\":"@);
        lemma_peel(pa, x, 16);
        lemma_peel(pb, y, 16);
        assert(pa[16] == ",\"state\":".spec_bytes() && pb[16] == ",\"state\":".spec_bytes());
        assert(not_digit(ta[0]) && not_digit(tb[0]));
        assert(pa[15] == json_opt_u64(a.not_before) && pb[15] == json_opt_u64(b.not_before));
        lemma_json_opt_u64_unique(a.not_before, b.not_before, ta, tb);
    }
}

/// Pieces 16 to 18 of a job record's canonical JSON, followed by
/// anything, tell the fields they hold and what follows.
#[verifier::rlimit(100)]
proof fn lemma_job_json_pieces_16_unique(a: SpecJobRecord, b: SpecJobRecord, x: Seq<u8>, y: Seq<u8>)
    requires
        concat(job_pieces(a).subrange(16, 25)) + x == concat(job_pieces(b).subrange(16, 25)) + y,
    ensures
        a.state == b.state,
        concat(job_pieces(a).subrange(18, 25)) + x == concat(job_pieces(b).subrange(18, 25)) + y,
{
    let pa = job_pieces(a);
    let pb = job_pieces(b);
    let n = pa.len() as int;
    assert(n == 25 && pb.len() == 25);
    lemma_peel_ends(pa, x);
    lemma_peel_ends(pb, y);
    assert(concat(pa.subrange(17, n)) + x == concat(pb.subrange(17, n)) + y) by {
        lemma_peel(pa, x, 16);
        lemma_peel(pb, y, 16);
        let ta = concat(pa.subrange(17, n)) + x;
        let tb = concat(pb.subrange(17, n)) + y;
        assert(pa[16] == pb[16] && pa[16] == ",\"state\":".spec_bytes());
        lemma_strip(pa[16], ta, tb);
    }
    assert(concat(pa.subrange(18, n)) + x == concat(pb.subrange(18, n)) + y && a.state == b.state) by {
        lemma_peel(pa, x, 17);
        lemma_peel(pb, y, 17);
        let ta = concat(pa.subrange(18, n)) + x;
        let tb = concat(pb.subrange(18, n)) + y;
        assert(pa[17] == job_state_json(a.state) && pb[17] == job_state_json(b.state));
        lemma_json_string_unique(job_state_name(a.state), job_state_name(b.state), ta, tb);
        lemma_job_state_name_unique(a.state, b.state);
    }
}

/// Pieces 18 to 25 of a job record's canonical JSON, followed by
/// anything, tell the fields they hold and what follows.
#[verifier::rlimit(100)]
proof fn lemma_job_json_pieces_18_unique(a: SpecJobRecord, b: SpecJobRecord, x: Seq<u8>, y: Seq<u8>)
    requires
        concat(job_pieces(a).subrange(18, 25)) + x == concat(job_pieces(b).subrange(18, 25)) + y,
    ensures
        a.proposer == b.proposer,
        a.created_at == b.created_at,
        a.signature == b.signature,
        x == y,
{
    let pa = job_pieces(a);
    let pb = job_pieces(b);
    let n = pa.len() as int;
    assert(n == 25 && pb.len() == 25);
    lemma_peel_ends(pa, x);
    lemma_peel_ends(pb, y);
    assert(concat(pa.subrange(19, n)) + x == concat(pb.subrange(19, n)) + y) by {
        lemma_peel(pa, x, 18);
        lemma_peel(pb, y, 18);
        let ta = concat(pa.subrange(19, n)) + x;
        let tb = concat(pb.subrange(19, n)) + y;
        assert(pa[18] == pb[18] && pa[18] == ",\"proposer\":".spec_bytes());
        lemma_strip(pa[18], ta, tb);
    }
    assert(concat(pa.subrange(20, n)) + x == concat(pb.subrange(20, n)) + y && a.proposer == b.proposer) by {
        lemma_peel(pa, x, 19);
        lemma_peel(pb, y, 19);
        let ta = concat(pa.subrange(20, n)) + x;
        let tb = concat(pb.subrange(20, n)) + y;
        assert(pa[19] == json_string(a.proposer) && pb[19] == json_string(b.proposer));
        lemma_json_string_unique(a.proposer, b.proposer, ta, tb);
    }
    assert(concat(pa.subrange(21, n)) + x == concat(pb.subrange(21, n)) + y) by {
        lemma_peel(pa, x, 20);
        lemma_peel(pb, y, 20);
        let ta = concat(pa.subrange(21, n)) + x;
        let tb = concat(pb.subrange(21, n)) + y;
        assert(pa[20] == pb[20] && pa[20] == ",\"created_at\":".spec_bytes());
        lemma_strip(pa[20], ta, tb);
    }
    assert(concat(pa.subrange(22, n)) + x == concat(pb.subrange(22, n)) + y && a.created_at == b.created_at) by {
        lemma_peel(pa, x, 21);
        lemma_peel(pb, y, 21);
        let ta = concat(pa.subrange(22, n)) + x;
        let tb = concat(pb.subrange(22, n)) + y;
        reveal_strlit(",\"signature\":");
        is_ascii_chars_encode_utf8(",\"signature\":"@);
        lemma_peel(pa, x, 22);
        lemma_peel(pb, y, 22);
        assert(pa[22] == ",\"signature\":".spec_bytes() && pb[22] == ",\"signature\":".spec_bytes());
        assert(not_digit(ta[0]) && not_digit(tb[0]));
        assert(pa[21] == decimal(a.created_at as nat) && pb[21] == decimal(b.created_at as nat));
        lemma_decimal_unique(a.created_at as nat, b.created_at as nat, ta, tb);
    }
    assert(concat(pa.subrange(23, n)) + x == concat(pb.subrange(23, n)) + y) by {
        lemma_peel(pa, x, 22);
        lemma_peel(pb, y, 22);
        let ta = concat(pa.subrange(23, n)) + x;
        let tb = concat(pb.subrange(23, n)) + y;
        assert(pa[22] == pb[22] && pa[22] == ",\"signature\":".spec_bytes());
        lemma_strip(pa[22], ta, tb);
    }
    assert(concat(pa.subrange(24, n)) + x == concat(pb.subrange(24, n)) + y && a.signature == b.signature) by {
        lemma_peel(pa, x, 23);
        lemma_peel(pb, y, 23);
        let ta = concat(pa.subrange(24, n)) + x;
        let tb = concat(pb.subrange(24, n)) + y;
        assert(pa[23] == json_string(a.signature) && pb[23] == json_string(b.signature));
        lemma_json_string_unique(a.signature, b.signature, ta, tb);
    }
    assert(concat(pa.subrange(25, n)) + x == concat(pb.subrange(25, n)) + y) by {
        lemma_peel(pa, x, 24);
        lemma_peel(pb, y, 24);
        let ta = concat(pa.subrange(25, n)) + x;
        let tb = concat(pb.subrange(25, n)) + y;
        assert(pa[24] == pb[24] && pa[24] == "}".spec_bytes());
        lemma_strip(pa[24], ta, tb);
    }
}

/// The canonical JSON of a job record, followed by anything, tells the record
/// and what follows.
#[verifier::rlimit(100)]
pub proof fn lemma_job_json_unique(a: SpecJobRecord, b: SpecJobRecord, x: Seq<u8>, y: Seq<u8>)
    requires
        job_json(a) + x == job_json(b) + y,
    ensures
        a == b,
        x == y,
{
    let pa = job_pieces(a);
    let pb = job_pieces(b);
    let n = pa.len() as int;
    assert(n == 25 && pb.len() == 25);
    assert(job_json(a) == concat(pa) && job_json(b) == concat(pb));
    lemma_peel_ends(pa, x);
    lemma_peel_ends(pb, y);
    assert(concat(pa.subrange(1, n)) + x == concat(pb.subrange(1, n)) + y) by {
        lemma_peel(pa, x, 0);
        lemma_peel(pb, y, 0);
        let ta = concat(pa.subrange(1, n)) + x;
        let tb = concat(pb.subrange(1, n)) + y;
        assert(pa[0] == pb[0] && pa[0] == "{\"job_id\":".spec_bytes());
        lemma_strip(pa[0], ta, tb);
    }
    assert(concat(pa.subrange(2, n)) + x == concat(pb.subrange(2, n)) + y && a.job_id == b.job_id) by {
        lemma_peel(pa, x, 1);
        lemma_peel(pb, y, 1);
        let ta = concat(pa.subrange(2, n)) + x;
        let tb = concat(pb.subrange(2, n)) + y;
        assert(pa[1] == json_string(a.job_id) && pb[1] == json_string(b.job_id));
        lemma_json_string_unique(a.job_id, b.job_id, ta, tb);
    }
    assert(concat(pa.subrange(3, n)) + x == concat(pb.subrange(3, n)) + y) by {
        lemma_peel(pa, x, 2);
        lemma_peel(pb, y, 2);
        let ta = concat(pa.subrange(3, n)) + x;
        let tb = concat(pb.subrange(3, n)) + y;
        assert(pa[2] == pb[2] && pa[2] == ",\"program_id\":".spec_bytes());
        lemma_strip(pa[2], ta, tb);
    }
    assert(concat(pa.subrange(4, n)) + x == concat(pb.subrange(4, n)) + y && a.program_id == b.program_id) by {
        lemma_peel(pa, x, 3);
        lemma_peel(pb, y, 3);
        let ta = concat(pa.subrange(4, n)) + x;
        let tb = concat(pb.subrange(4, n)) + y;
        assert(pa[3] == json_string(a.program_id) && pb[3] == json_string(b.program_id));
        lemma_json_string_unique(a.program_id, b.program_id, ta, tb);
    }
    assert(concat(pa.subrange(5, n)) + x == concat(pb.subrange(5, n)) + y) by {
        lemma_peel(pa, x, 4);
        lemma_peel(pb, y, 4);
        let ta = concat(pa.subrange(5, n)) + x;
        let tb = concat(pb.subrange(5, n)) + y;
        assert(pa[4] == pb[4] && pa[4] == ",\"program_url\":".spec_bytes());
        lemma_strip(pa[4], ta, tb);
    }
    assert(concat(pa.subrange(6, n)) + x == concat(pb.subrange(6, n)) + y && a.program_url == b.program_url) by {
        lemma_peel(pa, x, 5);
        lemma_peel(pb, y, 5);
        let ta = concat(pa.subrange(6, n)) + x;
        let tb = concat(pb.subrange(6, n)) + y;
        assert(pa[5] == json_opt_string(a.program_url) && pb[5] == json_opt_string(b.program_url));
        lemma_json_opt_string_unique(a.program_url, b.program_url, ta, tb);
    }
    assert(concat(pa.subrange(7, n)) + x == concat(pb.subrange(7, n)) + y) by {
        lemma_peel(pa, x, 6);
        lemma_peel(pb, y, 6);
        let ta = concat(pa.subrange(7, n)) + x;
        let tb = concat(pb.subrange(7, n)) + y;
        assert(pa[6] == pb[6] && pa[6] == ",\"entry\":".spec_bytes());
        lemma_strip(pa[6], ta, tb);
    }
    assert(concat(pa.subrange(8, n)) + x == concat(pb.subrange(8, n)) + y && a.entry == b.entry) by {
        lemma_peel(pa, x, 7);
        lemma_peel(pb, y, 7);
        let ta = concat(pa.subrange(8, n)) + x;
        let tb = concat(pb.subrange(8, n)) + y;
        assert(pa[7] == json_string(a.entry) && pb[7] == json_string(b.entry));
        lemma_json_string_unique(a.entry, b.entry, ta, tb);
    }
    assert(concat(pa.subrange(9, n)) + x == concat(pb.subrange(9, n)) + y) by {
        lemma_peel(pa, x, 8);
        lemma_peel(pb, y, 8);
        let ta = concat(pa.subrange(9, n)) + x;
        let tb = concat(pb.subrange(9, n)) + y;
        assert(pa[8] == pb[8] && pa[8] == ",\"n_parties\":".spec_bytes());
        lemma_strip(pa[8], ta, tb);
    }
    assert(concat(pa.subrange(10, n)) + x == concat(pb.subrange(10, n)) + y && a.n_parties == b.n_parties) by {
        lemma_peel(pa, x, 9);
        lemma_peel(pb, y, 9);
        let ta = concat(pa.subrange(10, n)) + x;
        let tb = concat(pb.subrange(10, n)) + y;
        reveal_strlit(",\"threshold\":");
        is_ascii_chars_encode_utf8(",\"threshold\":"@);
        lemma_peel(pa, x, 10);
        lemma_peel(pb, y, 10);
        assert(pa[10] == ",\"threshold\":".spec_bytes() && pb[10] == ",\"threshold\":".spec_bytes());
        assert(not_digit(ta[0]) && not_digit(tb[0]));
        assert(pa[9] == decimal(a.n_parties as nat) && pb[9] == decimal(b.n_parties as nat));
        lemma_decimal_unique(a.n_parties as nat, b.n_parties as nat, ta, tb);
    }
    lemma_job_json_pieces_10_unique(a, b, x, y);
    lemma_job_json_pieces_12_unique(a, b, x, y);
    lemma_job_json_pieces_14_unique(a, b, x, y);
    lemma_job_json_pieces_16_unique(a, b, x, y);
    lemma_job_json_pieces_18_unique(a, b, x, y);
}

/// The canonical JSON of a join record, followed by anything, tells the record
/// and what follows.
#[verifier::rlimit(100)]
pub proof fn lemma_join_json_unique(a: SpecJoinRecord, b: SpecJoinRecord, x: Seq<u8>, y: Seq<u8>)
    requires
        join_json(a) + x == join_json(b) + y,
    ensures
        a == b,
        x == y,
{
    let pa = Seq::<Seq<u8>>::empty()
        .push("{\"job_id\":".spec_bytes())
        .push(json_string(a.job_id))
        .push(",\"node_id\":".spec_bytes())
        .push(json_string(a.node_id))
        .push(",\"pubkey\":".spec_bytes())
        .push(json_string(a.pubkey))
        .push(",\"party_id\":".spec_bytes())
        .push(decimal(a.party_id as nat))
        .push(",\"joined_at\":".spec_bytes())
        .push(decimal(a.joined_at as nat))
        .push(",\"signature\":".spec_bytes())
        .push(json_string(a.signature))
        .push("}".spec_bytes());
    let pb = Seq::<Seq<u8>>::empty()
        .push("{\"job_id\":".spec_bytes())
        .push(json_string(b.job_id))
        .push(",\"node_id\":".spec_bytes())
        .push(json_string(b.node_id))
        .push(",\"pubkey\":".spec_bytes())
        .push(json_string(b.pubkey))
        .push(",\"party_id\":".spec_bytes())
        .push(decimal(b.party_id as nat))
        .push(",\"joined_at\":".spec_bytes())
        .push(decimal(b.joined_at as nat))
        .push(",\"signature\":".spec_bytes())
        .push(json_string(b.signature))
        .push("}".spec_bytes());
    let n = pa.len() as int;
    assert(n == 13 && pb.len() == 13);
    lemma_peel_ends(pa, x);
    lemma_peel_ends(pb, y);
    assert(concat(pa.subrange(1, n)) + x == concat(pb.subrange(1, n)) + y) by {
        lemma_peel(pa, x, 0);
        lemma_peel(pb, y, 0);
        let ta = concat(pa.subrange(1, n)) + x;
        let tb = concat(pb.subrange(1, n)) + y;
        assert(pa[0] == pb[0] && pa[0] == "{\"job_id\":".spec_bytes());
        lemma_strip(pa[0], ta, tb);
    }
    assert(concat(pa.subrange(2, n)) + x == concat(pb.subrange(2, n)) + y && a.job_id == b.job_id) by {
        lemma_peel(pa, x, 1);
        lemma_peel(pb, y, 1);
        let ta = concat(pa.subrange(2, n)) + x;
        let tb = concat(pb.subrange(2, n)) + y;
        assert(pa[1] == json_string(a.job_id) && pb[1] == json_string(b.job_id));
        lemma_json_string_unique(a.job_id, b.job_id, ta, tb);
    }
    assert(concat(pa.subrange(3, n)) + x == concat(pb.subrange(3, n)) + y) by {
        lemma_peel(pa, x, 2);
        lemma_peel(pb, y, 2);
        let ta = concat(pa.subrange(3, n)) + x;
        let tb = concat(pb.subrange(3, n)) + y;
        assert(pa[2] == pb[2] && pa[2] == ",\"node_id\":".spec_bytes());
        lemma_strip(pa[2], ta, tb);
    }
    assert(concat(pa.subrange(4, n)) + x == concat(pb.subrange(4, n)) + y && a.node_id == b.node_id) by {
        lemma_peel(pa, x, 3);
        lemma_peel(pb, y, 3);
        let ta = concat(pa.subrange(4, n)) + x;
        let tb = concat(pb.subrange(4, n)) + y;
        assert(pa[3] == json_string(a.node_id) && pb[3] == json_string(b.node_id));
        lemma_json_string_unique(a.node_id, b.node_id, ta, tb);
    }
    assert(concat(pa.subrange(5, n)) + x == concat(pb.subrange(5, n)) + y) by {
        lemma_peel(pa, x, 4);
        lemma_peel(pb, y, 4);
        let ta = concat(pa.subrange(5, n)) + x;
        let tb = concat(pb.subrange(5, n)) + y;
        assert(pa[4] == pb[4] && pa[4] == ",\"pubkey\":".spec_bytes());
        lemma_strip(pa[4], ta, tb);
    }
    assert(concat(pa.subrange(6, n)) + x == concat(pb.subrange(6, n)) + y && a.pubkey == b.pubkey) by {
        lemma_peel(pa, x, 5);
        lemma_peel(pb, y, 5);
        let ta = concat(pa.subrange(6, n)) + x;
        let tb = concat(pb.subrange(6, n)) + y;
        assert(pa[5] == json_string(a.pubkey) && pb[5] == json_string(b.pubkey));
        lemma_json_string_unique(a.pubkey, b.pubkey, ta, tb);
    }
    assert(concat(pa.subrange(7, n)) + x == concat(pb.subrange(7, n)) + y) by {
        lemma_peel(pa, x, 6);
        lemma_peel(pb, y, 6);
        let ta = concat(pa.subrange(7, n)) + x;
        let tb = concat(pb.subrange(7, n)) + y;
        assert(pa[6] == pb[6] && pa[6] == ",\"party_id\":".spec_bytes());
        lemma_strip(pa[6], ta, tb);
    }
    assert(concat(pa.subrange(8, n)) + x == concat(pb.subrange(8, n)) + y && a.party_id == b.party_id) by {
        lemma_peel(pa, x, 7);
        lemma_peel(pb, y, 7);
        let ta = concat(pa.subrange(8, n)) + x;
        let tb = concat(pb.subrange(8, n)) + y;
        reveal_strlit(",\"joined_at\":");
        is_ascii_chars_encode_utf8(",\"joined_at\":"@);
        lemma_peel(pa, x, 8);
        lemma_peel(pb, y, 8);
        assert(pa[8] == ",\"joined_at\":".spec_bytes() && pb[8] == ",\"joined_at\":".spec_bytes());
        assert(not_digit(ta[0]) && not_digit(tb[0]));
        assert(pa[7] == decimal(a.party_id as nat) && pb[7] == decimal(b.party_id as nat));
        lemma_decimal_unique(a.party_id as nat, b.party_id as nat, ta, tb);
    }
    assert(concat(pa.subrange(9, n)) + x == concat(pb.subrange(9, n)) + y) by {
        lemma_peel(pa, x, 8);
        lemma_peel(pb, y, 8);
        let ta = concat(pa.subrange(9, n)) + x;
        let tb = concat(pb.subrange(9, n)) + y;
        assert(pa[8] == pb[8] && pa[8] == ",\"joined_at\":".spec_bytes());
        lemma_strip(pa[8], ta, tb);
    }
    assert(concat(pa.subrange(10, n)) + x == concat(pb.subrange(10, n)) + y && a.joined_at == b.joined_at) by {
        lemma_peel(pa, x, 9);
        lemma_peel(pb, y, 9);
        let ta = concat(pa.subrange(10, n)) + x;
        let tb = concat(pb.subrange(10, n)) + y;
        reveal_strlit(",\"signature\":");
        is_ascii_chars_encode_utf8(",\"signature\":"@);
        lemma_peel(pa, x, 10);
        lemma_peel(pb, y, 10);
        assert(pa[10] == ",\"signature\":".spec_bytes() && pb[10] == ",\"signature\":".spec_bytes());
        assert(not_digit(ta[0]) && not_digit(tb[0]));
        assert(pa[9] == decimal(a.joined_at as nat) && pb[9] == decimal(b.joined_at as nat));
        lemma_decimal_unique(a.joined_at as nat, b.joined_at as nat, ta, tb);
    }
    assert(concat(pa.subrange(11, n)) + x == concat(pb.subrange(11, n)) + y) by {
        lemma_peel(pa, x, 10);
        lemma_peel(pb, y, 10);
        let ta = concat(pa.subrange(11, n)) + x;
        let tb = concat(pb.subrange(11, n)) + y;
        assert(pa[10] == pb[10] && pa[10] == ",\"signature\":".spec_bytes());
        lemma_strip(pa[10], ta, tb);
    }
    assert(concat(pa.subrange(12, n)) + x == concat(pb.subrange(12, n)) + y && a.signature == b.signature) by {
        lemma_peel(pa, x, 11);
        lemma_peel(pb, y, 11);
        let ta = concat(pa.subrange(12, n)) + x;
        let tb = concat(pb.subrange(12, n)) + y;
        assert(pa[11] == json_string(a.signature) && pb[11] == json_string(b.signature));
        lemma_json_string_unique(a.signature, b.signature, ta, tb);
    }
    assert(concat(pa.subrange(13, n)) + x == concat(pb.subrange(13, n)) + y) by {
        lemma_peel(pa, x, 12);
        lemma_peel(pb, y, 12);
        let ta = concat(pa.subrange(13, n)) + x;
        let tb = concat(pb.subrange(13, n)) + y;
        assert(pa[12] == pb[12] && pa[12] == "}".spec_bytes());
        lemma_strip(pa[12], ta, tb);
    }
}

/// The canonical JSON of a result record, followed by anything, tells the record
/// and what follows.
#[verifier::rlimit(100)]
pub proof fn lemma_result_json_unique(a: SpecResultRecord, b: SpecResultRecord, x: Seq<u8>, y: Seq<u8>)
    requires
        result_json(a) + x == result_json(b) + y,
    ensures
        a == b,
        x == y,
{
    let pa = Seq::<Seq<u8>>::empty()
        .push("{\"job_id\":".spec_bytes())
        .push(json_string(a.job_id))
        .push(",\"node_id\":".spec_bytes())
        .push(json_string(a.node_id))
        .push(",\"pubkey\":".spec_bytes())
        .push(json_string(a.pubkey))
        .push(",\"party_id\":".spec_bytes())
        .push(decimal(a.party_id as nat))
        .push(",\"value\":".spec_bytes())
        .push(json_string(a.value))
        .push(",\"program_id\":".spec_bytes())
        .push(json_string(a.program_id))
        .push(",\"completed_at\":".spec_bytes())
        .push(decimal(a.completed_at as nat))
        .push(",\"signature\":".spec_bytes())
        .push(json_string(a.signature))
        .push("}".spec_bytes());
    let pb = Seq::<Seq<u8>>::empty()
        .push("{\"job_id\":".spec_bytes())
        .push(json_string(b.job_id))
        .push(",\"node_id\":".spec_bytes())
        .push(json_string(b.node_id))
        .push(",\"pubkey\":".spec_bytes())
        .push(json_string(b.pubkey))
        .push(",\"party_id\":".spec_bytes())
        .push(decimal(b.party_id as nat))
        .push(",\"value\":".spec_bytes())
        .push(json_string(b.value))
        .push(",\"program_id\":".spec_bytes())
        .push(json_string(b.program_id))
        .push(",\"completed_at\":".spec_bytes())
        .push(decimal(b.completed_at as nat))
        .push(",\"signature\":".spec_bytes())
        .push(json_string(b.signature))
        .push("}".spec_bytes());
    let n = pa.len() as int;
    assert(n == 17 && pb.len() == 17);
    lemma_peel_ends(pa, x);
    lemma_peel_ends(pb, y);
    assert(concat(pa.subrange(1, n)) + x == concat(pb.subrange(1, n)) + y) by {
        lemma_peel(pa, x, 0);
        lemma_peel(pb, y, 0);
        let ta = concat(pa.subrange(1, n)) + x;
        let tb = concat(pb.subrange(1, n)) + y;
        assert(pa[0] == pb[0] && pa[0] == "{\"job_id\":".spec_bytes());
        lemma_strip(pa[0], ta, tb);
    }
    assert(concat(pa.subrange(2, n)) + x == concat(pb.subrange(2, n)) + y && a.job_id == b.job_id) by {
        lemma_peel(pa, x, 1);
        lemma_peel(pb, y, 1);
        let ta = concat(pa.subrange(2, n)) + x;
        let tb = concat(pb.subrange(2, n)) + y;
        assert(pa[1] == json_string(a.job_id) && pb[1] == json_string(b.job_id));
        lemma_json_string_unique(a.job_id, b.job_id, ta, tb);
    }
    assert(concat(pa.subrange(3, n)) + x == concat(pb.subrange(3, n)) + y) by {
        lemma_peel(pa, x, 2);
        lemma_peel(pb, y, 2);
        let ta = concat(pa.subrange(3, n)) + x;
        let tb = concat(pb.subrange(3, n)) + y;
        assert(pa[2] == pb[2] && pa[2] == ",\"node_id\":".spec_bytes());
        lemma_strip(pa[2], ta, tb);
    }
    assert(concat(pa.subrange(4, n)) + x == concat(pb.subrange(4, n)) + y && a.node_id == b.node_id) by {
        lemma_peel(pa, x, 3);
        lemma_peel(pb, y, 3);
        let ta = concat(pa.subrange(4, n)) + x;
        let tb = concat(pb.subrange(4, n)) + y;
        assert(pa[3] == json_string(a.node_id) && pb[3] == json_string(b.node_id));
        lemma_json_string_unique(a.node_id, b.node_id, ta, tb);
    }
    assert(concat(pa.subrange(5, n)) + x == concat(pb.subrange(5, n)) + y) by {
        lemma_peel(pa, x, 4);
        lemma_peel(pb, y, 4);
        let ta = concat(pa.subrange(5, n)) + x;
        let tb = concat(pb.subrange(5, n)) + y;
        assert(pa[4] == pb[4] && pa[4] == ",\"pubkey\":".spec_bytes());
        lemma_strip(pa[4], ta, tb);
    }
    assert(concat(pa.subrange(6, n)) + x == concat(pb.subrange(6, n)) + y && a.pubkey == b.pubkey) by {
        lemma_peel(pa, x, 5);
        lemma_peel(pb, y, 5);
        let ta = concat(pa.subrange(6, n)) + x;
        let tb = concat(pb.subrange(6, n)) + y;
        assert(pa[5] == json_string(a.pubkey) && pb[5] == json_string(b.pubkey));
        lemma_json_string_unique(a.pubkey, b.pubkey, ta, tb);
    }
    assert(concat(pa.subrange(7, n)) + x == concat(pb.subrange(7, n)) + y) by {
        lemma_peel(pa, x, 6);
        lemma_peel(pb, y, 6);
        let ta = concat(pa.subrange(7, n)) + x;
        let tb = concat(pb.subrange(7, n)) + y;
        assert(pa[6] == pb[6] && pa[6] == ",\"party_id\":".spec_bytes());
        lemma_strip(pa[6], ta, tb);
    }
    assert(concat(pa.subrange(8, n)) + x == concat(pb.subrange(8, n)) + y && a.party_id == b.party_id) by {
        lemma_peel(pa, x, 7);
        lemma_peel(pb, y, 7);
        let ta = concat(pa.subrange(8, n)) + x;
        let tb = concat(pb.subrange(8, n)) + y;
        reveal_strlit(",\"value\":");
        is_ascii_chars_encode_utf8(",\"value\":"@);
        lemma_peel(pa, x, 8);
        lemma_peel(pb, y, 8);
        assert(pa[8] == ",\"value\":".spec_bytes() && pb[8] == ",\"value\":".spec_bytes());
        assert(not_digit(ta[0]) && not_digit(tb[0]));
        assert(pa[7] == decimal(a.party_id as nat) && pb[7] == decimal(b.party_id as nat));
        lemma_decimal_unique(a.party_id as nat, b.party_id as nat, ta, tb);
    }
    assert(concat(pa.subrange(9, n)) + x == concat(pb.subrange(9, n)) + y) by {
        lemma_peel(pa, x, 8);
        lemma_peel(pb, y, 8);
        let ta = concat(pa.subrange(9, n)) + x;
        let tb = concat(pb.subrange(9, n)) + y;
        assert(pa[8] == pb[8] && pa[8] == ",\"value\":".spec_bytes());
        lemma_strip(pa[8], ta, tb);
    }
    assert(concat(pa.subrange(10, n)) + x == concat(pb.subrange(10, n)) + y && a.value == b.value) by {
        lemma_peel(pa, x, 9);
        lemma_peel(pb, y, 9);
        let ta = concat(pa.subrange(10, n)) + x;
        let tb = concat(pb.subrange(10, n)) + y;
        assert(pa[9] == json_string(a.value) && pb[9] == json_string(b.value));
        lemma_json_string_unique(a.value, b.value, ta, tb);
    }
    assert(concat(pa.subrange(11, n)) + x == concat(pb.subrange(11, n)) + y) by {
        lemma_peel(pa, x, 10);
        lemma_peel(pb, y, 10);
        let ta = concat(pa.subrange(11, n)) + x;
        let tb = concat(pb.subrange(11, n)) + y;
        assert(pa[10] == pb[10] && pa[10] == ",\"program_id\":".spec_bytes());
        lemma_strip(pa[10], ta, tb);
    }
    assert(concat(pa.subrange(12, n)) + x == concat(pb.subrange(12, n)) + y && a.program_id == b.program_id) by {
        lemma_peel(pa, x, 11);
        lemma_peel(pb, y, 11);
        let ta = concat(pa.subrange(12, n)) + x;
        let tb = concat(pb.subrange(12, n)) + y;
        assert(pa[11] == json_string(a.program_id) && pb[11] == json_string(b.program_id));
        lemma_json_string_unique(a.program_id, b.program_id, ta, tb);
    }
    assert(concat(pa.subrange(13, n)) + x == concat(pb.subrange(13, n)) + y) by {
        lemma_peel(pa, x, 12);
        lemma_peel(pb, y, 12);
        let ta = concat(pa.subrange(13, n)) + x;
        let tb = concat(pb.subrange(13, n)) + y;
        assert(pa[12] == pb[12] && pa[12] == ",\"completed_at\":".spec_bytes());
        lemma_strip(pa[12], ta, tb);
    }
    assert(concat(pa.subrange(14, n)) + x == concat(pb.subrange(14, n)) + y && a.completed_at == b.completed_at) by {
        lemma_peel(pa, x, 13);
        lemma_peel(pb, y, 13);
        let ta = concat(pa.subrange(14, n)) + x;
        let tb = concat(pb.subrange(14, n)) + y;
        reveal_strlit(",\"signature\":");
        is_ascii_chars_encode_utf8(",\"signature\":"@);
        lemma_peel(pa, x, 14);
        lemma_peel(pb, y, 14);
        assert(pa[14] == ",\"signature\":".spec_bytes() && pb[14] == ",\"signature\":".spec_bytes());
        assert(not_digit(ta[0]) && not_digit(tb[0]));
        assert(pa[13] == decimal(a.completed_at as nat) && pb[13] == decimal(b.completed_at as nat));
        lemma_decimal_unique(a.completed_at as nat, b.completed_at as nat, ta, tb);
    }
    assert(concat(pa.subrange(15, n)) + x == concat(pb.subrange(15, n)) + y) by {
        lemma_peel(pa, x, 14);
        lemma_peel(pb, y, 14);
        let ta = concat(pa.subrange(15, n)) + x;
        let tb = concat(pb.subrange(15, n)) + y;
        assert(pa[14] == pb[14] && pa[14] == ",\"signature\":".spec_bytes());
        lemma_strip(pa[14], ta, tb);
    }
    assert(concat(pa.subrange(16, n)) + x == concat(pb.subrange(16, n)) + y && a.signature == b.signature) by {
        lemma_peel(pa, x, 15);
        lemma_peel(pb, y, 15);
        let ta = concat(pa.subrange(16, n)) + x;
        let tb = concat(pb.subrange(16, n)) + y;
        assert(pa[15] == json_string(a.signature) && pb[15] == json_string(b.signature));
        lemma_json_string_unique(a.signature, b.signature, ta, tb);
    }
    assert(concat(pa.subrange(17, n)) + x == concat(pb.subrange(17, n)) + y) by {
        lemma_peel(pa, x, 16);
        lemma_peel(pb, y, 16);
        let ta = concat(pa.subrange(17, n)) + x;
        let tb = concat(pb.subrange(17, n)) + y;
        assert(pa[16] == pb[16] && pa[16] == "}".spec_bytes());
        lemma_strip(pa[16], ta, tb);
    }
}

} // verus!
