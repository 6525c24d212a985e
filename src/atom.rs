use vstd::prelude::*;
use vstd::slice::slice_subrange;
use crate::error::{fail, parsed_view, splits_value, ErrorKind, ParseError, Parsed, SpecParsed, DIGIT_ZERO};
use crate::lex::{
    is_digit, lemma_scan, lemma_scan_end, scan, scan_from, spec_is_digit, ByteClass,
};
use crate::twig::{literal, Odor, Rune, Twig};

verus! {

/// The value of the decimal digits of `s` from `i` up to `e`.
pub open spec fn decimal_value(s: Seq<u8>, i: int, e: int) -> nat
    decreases e - i,
{
    if e <= i {
        0
    } else {
        decimal_value(s, i, e - 1) * 10 + (s[e - 1] - DIGIT_ZERO) as nat
    }
}

/// An unsigned decimal literal at `i`: the longest run of digits there, read as a
/// `u64`.
pub open spec fn spec_ud(s: Seq<u8>, i: int) -> SpecParsed<Twig> {
    if 0 <= i < s.len() && spec_is_digit(s[i]) {
        let e = scan(s, i, ByteClass::Digit);
        let v = decimal_value(s, i, e);
        if v > u64::MAX {
            fail(ErrorKind::LiteralOverflow, i)
        } else {
            Ok(((e - i) as nat, literal(v as u64)))
        }
    } else {
        fail(ErrorKind::DigitExpected, i)
    }
}

/// The decimal text of `n`, without leading zeros.
pub open spec fn decimal_text(n: nat) -> Seq<u8>
    decreases n,
{
    if n < 10 {
        seq![(n + DIGIT_ZERO) as u8]
    } else {
        decimal_text(n / 10).push((n % 10 + DIGIT_ZERO) as u8)
    }
}

/// A longer run of digits has at least the value of its prefix.
pub proof fn lemma_decimal_value_grows(s: Seq<u8>, i: int, k: int, e: int)
    requires
        i <= k <= e,
    ensures
        decimal_value(s, i, k) <= decimal_value(s, i, e),
    decreases e - k,
{
    if k < e {
        lemma_decimal_value_grows(s, i, k, e - 1);
    }
}

/// The value of a run depends only on the bytes in it.
pub proof fn lemma_decimal_value_same(s: Seq<u8>, t: Seq<u8>, i: int, e: int)
    requires
        forall|k: int| i <= k < e ==> s[k] == t[k],
    ensures
        decimal_value(s, i, e) == decimal_value(t, i, e),
    decreases e - i,
{
    if i < e {
        lemma_decimal_value_same(s, t, i, e - 1);
    }
}

pub proof fn lemma_decimal_text(n: nat)
    ensures
        decimal_text(n).len() >= 1,
        forall|k: int| 0 <= k < decimal_text(n).len() ==> spec_is_digit(#[trigger] decimal_text(n)[k]),
        decimal_value(decimal_text(n), 0, decimal_text(n).len() as int) == n,
    decreases n,
{
    if n >= 10 {
        let p = decimal_text(n / 10);
        lemma_decimal_text(n / 10);
        let t = decimal_text(n);
        assert(t == p.push((n % 10 + DIGIT_ZERO) as u8));
        lemma_decimal_value_same(t, p, 0, p.len() as int);
        assert(t[p.len() as int] == (n % 10 + DIGIT_ZERO) as u8);
        assert(decimal_value(t, 0, t.len() as int) == (n / 10) * 10 + n % 10);
        assert((n / 10) * 10 + n % 10 == n) by (nonlinear_arith);
    } else {
        assert(decimal_value(decimal_text(n), 0, 0) == 0);
    }
}

/// The unsigned decimal literal parser reads the decimal text of any `u64` back
/// as that value.
pub proof fn lemma_ud_reads_decimal_text(n: nat)
    requires
        n <= u64::MAX,
    ensures
        spec_ud(decimal_text(n), 0) == Ok::<(nat, Twig), crate::error::ParseError>(
            (decimal_text(n).len(), literal(n as u64)),
        ),
{
    let t = decimal_text(n);
    lemma_decimal_text(n);
    lemma_scan_end(t, 0, t.len() as int, ByteClass::Digit);
}

/// The value of a run depends only on its bytes, not on where it stands.
pub proof fn lemma_decimal_value_shift(s: Seq<u8>, d: Seq<u8>, i: int, m: int)
    requires
        0 <= m,
        forall|k: int| 0 <= k < m ==> s[i + k] == d[k],
    ensures
        decimal_value(s, i, i + m) == decimal_value(d, 0, m),
    decreases m,
{
    if m > 0 {
        lemma_decimal_value_shift(s, d, i, m - 1);
        assert(s[i + (m - 1)] == d[m - 1]);
    }
}

/// The decimal text of a `u64` that stands at `i` in a larger buffer, and is not
/// followed by a digit, reads as that value.
pub proof fn lemma_ud_reads_decimal_text_at(s: Seq<u8>, i: int, n: nat)
    requires
        n <= u64::MAX,
        0 <= i,
        i + decimal_text(n).len() <= s.len(),
        forall|k: int| 0 <= k < decimal_text(n).len() ==> s[i + k] == #[trigger] decimal_text(n)[k],
        i + decimal_text(n).len() < s.len() ==> !spec_is_digit(s[i + decimal_text(n).len()]),
    ensures
        spec_ud(s, i) == Ok::<(nat, Twig), crate::error::ParseError>(
            (decimal_text(n).len(), literal(n as u64)),
        ),
{
    let d = decimal_text(n);
    lemma_decimal_text(n);
    assert forall|k: int| i <= k < i + d.len() implies ByteClass::Digit.spec_contains(#[trigger] s[k]) by {
        assert(s[i + (k - i)] == d[k - i]);
    }
    lemma_scan_end(s, i, i + d.len(), ByteClass::Digit);
    lemma_decimal_value_shift(s, d, i, d.len() as int);
    assert(s[i + 0] == d[0]);
}

pub fn ud_at(s: &[u8], i: usize) -> (r: Parsed<Twig>)
    requires
        i <= s@.len(),
    ensures
        parsed_view(r) == spec_ud(s@, i as int),
        r is Ok ==> 1 <= r->Ok_0.0 <= s@.len() - i,
{
    if !(i < s.len() && is_digit(s[i])) {
        return Err(ParseError { kind: ErrorKind::DigitExpected, at: i });
    }
    let e = scan_from(s, i, ByteClass::Digit);
    proof {
        lemma_scan(s@, i as int, ByteClass::Digit);
    }
    let mut v: u64 = 0;
    let mut k = i;
    while k < e
        invariant
            i <= k <= e <= s@.len(),
            e == scan(s@, i as int, ByteClass::Digit),
            forall|j: int| i <= j < e ==> spec_is_digit(#[trigger] s@[j]),
            v == decimal_value(s@, i as int, k as int),
        decreases e - k,
    {
        let d = (s[k] - DIGIT_ZERO) as u64;
        let next = match v.checked_mul(10) {
            Some(m) => m.checked_add(d),
            None => None,
        };
        match next {
            Some(nv) => {
                v = nv;
            },
            None => {
                proof {
                    lemma_decimal_value_grows(s@, i as int, k + 1, e as int);
                }
                return Err(ParseError { kind: ErrorKind::LiteralOverflow, at: i });
            },
        }
        k = k + 1;
    }
    Ok((e - i, Twig::Cell(Box::new(Twig::Rune(Rune::Dtzy)), Box::new(Twig::Atom(Odor::Ud, v)))))
}

/// Parses an unsigned decimal literal at the start of `input`. Returns its tree and
/// the rest.
pub fn ud(input: &[u8]) -> (r: Result<(Twig, &[u8]), ParseError>)
    ensures
        splits_value(input@, spec_ud(input@, 0), r),
{
    match ud_at(input, 0) {
        Ok((c, t)) => Ok((t, slice_subrange(input, c, input.len()))),
        Err(e) => Err(e),
    }
}

} // verus!
