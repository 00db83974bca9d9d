//! Text primitives that the ledger's canonical encodings are built from:
//! comparison of strings, and decimal and hexadecimal rendering.

use vstd::prelude::*;
use vstd::string::*;
use vstd::utf8::*;

verus! {

/// Two character sequences are equal exactly when their UTF-8 encodings are.
pub proof fn lemma_utf8_injective(a: Seq<char>, b: Seq<char>)
    ensures
        (encode_utf8(a) == encode_utf8(b)) <==> (a == b),
{
    encode_utf8_decode_utf8(a);
    encode_utf8_decode_utf8(b);
}

/// Whether `a` and `b` hold the same text.
///
/// Texts of one length are compared byte by byte to the end, whatever the
/// comparisons before have shown, so that the running time tells an
/// observer nothing about the position of the first difference.
pub fn str_eq(a: &str, b: &str) -> (same: bool)
    ensures
        same == (a@ == b@),
{
    let x = a.as_bytes();
    let y = b.as_bytes();
    proof {
        lemma_utf8_injective(a@, b@);
    }
    if x.len() != y.len() {
        return false;
    }
    let mut diff: u8 = 0;
    let mut i: usize = 0;
    while i < x.len()
        invariant
            i <= x.len(),
            x.len() == y.len(),
            (diff == 0) <==> (x@.subrange(0, i as int) =~= y@.subrange(0, i as int)),
        decreases x.len() - i,
    {
        let xb: u8 = x[i];
        let yb: u8 = y[i];
        let d: u8 = xb ^ yb;
        assert((d == 0) <==> (xb == yb)) by (bit_vector)
            requires
                d == xb ^ yb,
        ;
        let ghost before = diff;
        diff = diff | d;
        assert((diff == 0) <==> (before == 0 && d == 0)) by (bit_vector)
            requires
                diff == before | d,
        ;
        proof {
            let xs = x@.subrange(0, i + 1);
            let ys = y@.subrange(0, i + 1);
            assert(x@.subrange(0, i as int) == xs.subrange(0, i as int));
            assert(y@.subrange(0, i as int) == ys.subrange(0, i as int));
            assert(xs[i as int] == x[i as int]);
            assert(ys[i as int] == y[i as int]);
            if x@.subrange(0, i as int) == y@.subrange(0, i as int) && x[i as int] == y[i as int] {
                assert(xs =~= ys);
            }
        }
        i = i + 1;
    }
    proof {
        assert(x@.subrange(0, i as int) == x@);
        assert(y@.subrange(0, i as int) == y@);
    }
    diff == 0
}

/// The sixteen digits, in order of their value.
pub open spec fn digit_table() -> Seq<char> {
    "0123456789abcdef"@
}

/// The character that writes the digit `d`, for `d` below sixteen; from ten
/// on these are the lower-case letters `a` to `f`.
pub open spec fn digit_char(d: nat) -> char
    recommends
        d < 16,
{
    digit_table()[d as int]
}

/// `n` in decimal notation: most significant digit first, no sign, and no
/// leading zero but for zero itself.
pub open spec fn decimal(n: nat) -> Seq<char>
    decreases n,
{
    if n < 10 {
        seq![digit_char(n)]
    } else {
        decimal(n / 10).push(digit_char(n % 10))
    }
}

/// `bytes` in hexadecimal notation: for each byte in turn its high and then
/// its low four bits, as one lower-case digit each.
pub open spec fn lower_hex(bytes: Seq<u8>) -> Seq<char>
    decreases bytes.len(),
{
    if bytes.len() == 0 {
        Seq::empty()
    } else {
        lower_hex(bytes.drop_last()).push(digit_char(bytes.last() as nat / 16)).push(
            digit_char(bytes.last() as nat % 16),
        )
    }
}

/// Appends the digit `d` to `out`.
fn push_digit(out: &mut String, d: usize)
    requires
        d < 16,
    ensures
        final(out)@ == old(out)@.push(digit_char(d as nat)),
{
    let table = "0123456789abcdef";
    proof {
        reveal_strlit("0123456789abcdef");
    }
    let piece = table.substring_ascii(d, d + 1);
    out.append(piece);
    assert(out@ =~= old(out)@.push(digit_char(d as nat)));
}

/// Renders `n` in decimal notation.
pub fn to_decimal(n: u128) -> (out: String)
    ensures
        out@ == decimal(n as nat),
    decreases n,
{
    if n < 10 {
        let mut out = String::new();
        push_digit(&mut out, n as usize);
        assert(out@ =~= seq![digit_char(n as nat)]);
        out
    } else {
        let mut out = to_decimal(n / 10);
        push_digit(&mut out, (n % 10) as usize);
        out
    }
}

/// Renders `bytes` in lower-case hexadecimal notation, two digits a byte.
pub fn to_lower_hex(bytes: &[u8]) -> (out: String)
    ensures
        out@ == lower_hex(bytes@),
{
    let mut out = String::new();
    let mut i: usize = 0;
    while i < bytes.len()
        invariant
            i <= bytes.len(),
            out@ == lower_hex(bytes@.subrange(0, i as int)),
        decreases bytes.len() - i,
    {
        let b: u8 = bytes[i];
        proof {
            let done = bytes@.subrange(0, i + 1);
            assert(done.drop_last() =~= bytes@.subrange(0, i as int));
            assert(done.last() == b);
        }
        push_digit(&mut out, (b / 16) as usize);
        push_digit(&mut out, (b % 16) as usize);
        i = i + 1;
    }
    assert(bytes@.subrange(0, i as int) =~= bytes@);
    out
}

/// What formatting a string with `{:?}` yields: the text between double
/// quotes, with the characters that cannot stand there as they are written
/// as escapes.
pub uninterp spec fn quoted(text: Seq<char>) -> Seq<char>;

/// Formats `text` with `{:?}`, which calls `<str as core::fmt::Debug>::fmt`.
///
/// Trusted: the result is taken to depend on the characters of `text` alone,
/// and is given the name [`quoted`]. Nothing else is claimed of it.
#[verifier::external_body]
pub(crate) fn to_quoted(text: &str) -> (out: String)
    ensures
        out@ == quoted(text@),
{
    format!("{:?}", text)
}

} // verus!
