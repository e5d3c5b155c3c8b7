//! The text of canonical forms: decimal numbers, and the order of two texts.
//!
//! Two canonical forms are ordered as strings are: byte by byte over their
//! UTF-8 encoding, a proper prefix before the longer text.

use crate::time::Span;
use vstd::prelude::*;
use vstd::utf8::{encode_utf8, encode_utf8_decode_utf8};

verus! {

/// The character of the decimal digit `d`.
pub open spec fn digit(d: nat) -> char {
    if d == 0 {
        '0'
    } else if d == 1 {
        '1'
    } else if d == 2 {
        '2'
    } else if d == 3 {
        '3'
    } else if d == 4 {
        '4'
    } else if d == 5 {
        '5'
    } else if d == 6 {
        '6'
    } else if d == 7 {
        '7'
    } else if d == 8 {
        '8'
    } else {
        '9'
    }
}

/// `n` in decimal digits, without leading zeros.
pub open spec fn decimal(n: nat) -> Seq<char>
    decreases n,
{
    if n < 10 {
        seq![digit(n)]
    } else {
        decimal(n / 10).push(digit(n % 10))
    }
}

/// Whether the bytes `a` come before the bytes `b`: at the first place where
/// they differ `a` has the smaller byte, or `a` ends there and `b` goes on.
pub open spec fn bytes_lt(a: Seq<u8>, b: Seq<u8>) -> bool
    decreases a.len(),
{
    if b.len() == 0 {
        false
    } else if a.len() == 0 {
        true
    } else if a[0] != b[0] {
        a[0] < b[0]
    } else {
        bytes_lt(a.drop_first(), b.drop_first())
    }
}

/// Whether the text `a` comes before the text `b` in the order of strings.
pub open spec fn text_lt(a: Seq<char>, b: Seq<char>) -> bool {
    bytes_lt(encode_utf8(a), encode_utf8(b))
}

/// No bytes come before themselves.
pub proof fn lemma_bytes_lt_irreflexive(a: Seq<u8>)
    ensures
        !bytes_lt(a, a),
    decreases a.len(),
{
    if a.len() > 0 {
        lemma_bytes_lt_irreflexive(a.drop_first());
    }
}

/// What comes before something that comes before `c` comes before `c`.
pub proof fn lemma_bytes_lt_transitive(a: Seq<u8>, b: Seq<u8>, c: Seq<u8>)
    requires
        bytes_lt(a, b),
        bytes_lt(b, c),
    ensures
        bytes_lt(a, c),
    decreases a.len(),
{
    if a.len() > 0 && a[0] == b[0] && b[0] == c[0] {
        lemma_bytes_lt_transitive(a.drop_first(), b.drop_first(), c.drop_first());
    }
}

/// Of two different byte strings one comes before the other.
pub proof fn lemma_bytes_lt_connected(a: Seq<u8>, b: Seq<u8>)
    requires
        !bytes_lt(a, b),
        !bytes_lt(b, a),
    ensures
        a == b,
    decreases a.len(),
{
    if a.len() == 0 || b.len() == 0 {
        assert(a =~= b);
    } else {
        lemma_bytes_lt_connected(a.drop_first(), b.drop_first());
        assert(a =~= seq![a[0]] + a.drop_first());
        assert(b =~= seq![b[0]] + b.drop_first());
    }
}

/// The order of texts is a strict total order: of two texts exactly one
/// comes before the other, unless they are the same text; and the order is
/// transitive.
pub proof fn lemma_text_order(a: Seq<char>, b: Seq<char>, c: Seq<char>)
    ensures
        !text_lt(a, a),
        text_lt(a, b) ==> !text_lt(b, a),
        a != b ==> text_lt(a, b) || text_lt(b, a),
        text_lt(a, b) && text_lt(b, c) ==> text_lt(a, c),
{
    let x = encode_utf8(a);
    let y = encode_utf8(b);
    let z = encode_utf8(c);
    lemma_bytes_lt_irreflexive(x);
    if bytes_lt(x, y) && bytes_lt(y, x) {
        lemma_bytes_lt_transitive(x, y, x);
    }
    if !bytes_lt(x, y) && !bytes_lt(y, x) {
        lemma_bytes_lt_connected(x, y);
        encode_utf8_decode_utf8(a);
        encode_utf8_decode_utf8(b);
    }
    if bytes_lt(x, y) && bytes_lt(y, z) {
        lemma_bytes_lt_transitive(x, y, z);
    }
}

/// Whether the bytes `a` come before the bytes `b`.
fn bytes_precede(a: &[u8], b: &[u8]) -> (before: bool)
    ensures
        before == bytes_lt(a@, b@),
{
    let mut i: usize = 0;
    assert(a@.skip(0) =~= a@ && b@.skip(0) =~= b@);
    while i < a.len() && i < b.len()
        invariant
            0 <= i <= a.len(),
            i <= b.len(),
            bytes_lt(a@, b@) == bytes_lt(a@.skip(i as int), b@.skip(i as int)),
        decreases a.len() - i,
    {
        if a[i] != b[i] {
            return a[i] < b[i];
        }
        assert(a@.skip(i as int).drop_first() =~= a@.skip(i + 1));
        assert(b@.skip(i as int).drop_first() =~= b@.skip(i + 1));
        i += 1;
    }
    i < b.len()
}

/// Whether the text `a` comes before the text `b` in the order of strings.
pub fn precedes(a: &str, b: &str) -> (before: bool)
    ensures
        before == text_lt(a@, b@),
{
    bytes_precede(a.as_bytes(), b.as_bytes())
}

/// The text of one decimal digit.
fn digit_text(d: u64) -> (text: &'static str)
    requires
        d < 10,
    ensures
        text@ == seq![digit(d as nat)],
{
    proof {
        reveal_strlit("0");
        reveal_strlit("1");
        reveal_strlit("2");
        reveal_strlit("3");
        reveal_strlit("4");
        reveal_strlit("5");
        reveal_strlit("6");
        reveal_strlit("7");
        reveal_strlit("8");
        reveal_strlit("9");
    }
    let text = if d == 0 {
        "0"
    } else if d == 1 {
        "1"
    } else if d == 2 {
        "2"
    } else if d == 3 {
        "3"
    } else if d == 4 {
        "4"
    } else if d == 5 {
        "5"
    } else if d == 6 {
        "6"
    } else if d == 7 {
        "7"
    } else if d == 8 {
        "8"
    } else {
        "9"
    };
    assert(text@ =~= seq![digit(d as nat)]);
    text
}

/// Writes `n` in decimal digits at the end of `out`.
pub fn append_decimal(out: &mut String, n: u64)
    ensures
        final(out)@ == old(out)@ + decimal(n as nat),
    decreases n,
{
    if n >= 10 {
        append_decimal(out, n / 10);
    }
    out.append(digit_text(n % 10));
    assert(out@ =~= old(out)@ + decimal(n as nat));
}

/// A span of time as its canonical form holds it: an object of its whole
/// seconds and of the nanoseconds beyond them.
pub open spec fn span_text(nanos: nat) -> Seq<char> {
    "{\"secs\":"@ + decimal(nanos / 1_000_000_000) + ",\"nanos\":"@ + decimal(
        nanos % 1_000_000_000,
    ) + "}"@
}

/// Writes `span` at the end of `out`.
pub fn append_span(out: &mut String, span: &Span)
    ensures
        final(out)@ == old(out)@ + span_text(span@),
{
    out.append("{\"secs\":");
    append_decimal(out, span.as_secs());
    out.append(",\"nanos\":");
    append_decimal(out, span.subsec_nanos() as u64);
    out.append("}");
    assert(out@ =~= old(out)@ + span_text(span@));
}

/// A yes or no as its canonical form holds it.
pub open spec fn flag_text(flag: bool) -> Seq<char> {
    if flag {
        "true"@
    } else {
        "false"@
    }
}

/// Yeses and noes as a canonical form lists them, with commas between.
pub open spec fn flags_text(flags: Seq<bool>) -> Seq<char>
    decreases flags.len(),
{
    if flags.len() == 0 {
        Seq::empty()
    } else if flags.len() == 1 {
        flag_text(flags[0])
    } else {
        flags_text(flags.drop_last()) + ","@ + flag_text(flags.last())
    }
}

/// Writes the seven flags of `flags` at the end of `out`, with commas
/// between.
pub fn append_flags(out: &mut String, flags: &[bool; 7])
    ensures
        final(out)@ == old(out)@ + flags_text(flags@),
{
    let mut i: usize = 0;
    assert(out@ =~= old(out)@ + flags_text(flags@.take(0)));
    while i < 7
        invariant
            0 <= i <= 7,
            out@ == old(out)@ + flags_text(flags@.take(i as int)),
        decreases 7 - i,
    {
        let ghost before = out@;
        let ghost shown = flags@.take(i + 1);
        assert(shown.drop_last() =~= flags@.take(i as int));
        assert(shown.last() == flags@[i as int]);
        if i > 0 {
            out.append(",");
        }
        if flags[i] {
            out.append("true");
        } else {
            out.append("false");
        }
        assert(out@ =~= old(out)@ + flags_text(shown));
        i += 1;
    }
    assert(flags@.take(7) =~= flags@);
}

} // verus!
