use vstd::prelude::*;
use vstd::slice::slice_subrange;
use crate::atom::{
    decimal_text, lemma_decimal_text, lemma_ud_reads_decimal_text, lemma_ud_reads_decimal_text_at,
    spec_ud, ud_at,
};
use crate::error::{
    byte_at, fail, pair_at, parsed_view, splits_value, ErrorKind, ParseError, Parsed, SpecParsed, BAR, CLOSE_PAREN,
    EQUALS, HYPHEN, NEWLINE, OPEN_PAREN, SPACE,
};
use crate::lex::{
    gap_at, lemma_gap, lemma_gap_of_run, spec_gap, weight,
};
use crate::twig::{apply, literal, Rune, Twig};

verus! {

/// The glyph of rune `r` stands at `i`.
pub open spec fn glyph_at(s: Seq<u8>, i: int, r: Rune) -> bool {
    match r.spec_glyph() {
        Some((b0, b1)) => pair_at(s, i, b0, b1),
        None => false,
    }
}

/// An expression at `i`. The runes are tried first: once a rune's glyph is seen the
/// parse is committed to that rune. Otherwise it is a numeric literal.
pub open spec fn spec_ream(s: Seq<u8>, i: int) -> SpecParsed<Twig>
    decreases s.len() - i, 1int, 0int,
{
    if glyph_at(s, i, Rune::Brhp) {
        spec_rune(s, i, Rune::Brhp)
    } else {
        spec_ud(s, i)
    }
}

/// Rune `r`, whose glyph stands at `i`, applied to its arguments: in the wide form
/// when `(` follows the glyph, in the tall form otherwise.
pub open spec fn spec_rune(s: Seq<u8>, i: int, r: Rune) -> SpecParsed<Twig>
    decreases s.len() - i, 0int, 0int,
{
    let p = i + 2;
    if byte_at(s, p, OPEN_PAREN) {
        match spec_wide_args(s, p + 1, r.spec_arity()) {
            Ok((c, t)) => Ok((c + 3, apply(r, t))),
            Err(e) => Err(e),
        }
    } else {
        match spec_gap(s, p) {
            Ok((g, _)) => {
                proof {
                    lemma_gap(s, p);
                }
                match spec_tall_args(s, p + g, r.spec_arity()) {
                    Ok((c, t)) => Ok((2 + g + c, apply(r, t))),
                    Err(e) => Err(e),
                }
            },
            Err(e) => Err(e),
        }
    }
}

/// The `n` arguments of the wide form at `k`: expressions separated by single spaces
/// and closed by `)`, folded to the right into cells.
pub open spec fn spec_wide_args(s: Seq<u8>, k: int, n: nat) -> SpecParsed<Twig>
    decreases s.len() - k, 2int, n,
{
    match spec_ream(s, k) {
        Ok((c, t)) => {
            let j = k + c;
            if n <= 1 {
                if byte_at(s, j, CLOSE_PAREN) {
                    Ok((c + 1, t))
                } else {
                    fail(ErrorKind::TokenExpected, j)
                }
            } else if byte_at(s, j, SPACE) {
                match spec_wide_args(s, j + 1, (n - 1) as nat) {
                    Ok((c2, t2)) => Ok((c + 1 + c2, Twig::Cell(Box::new(t), Box::new(t2)))),
                    Err(e) => Err(e),
                }
            } else {
                fail(ErrorKind::TokenExpected, j)
            }
        },
        Err(e) => Err(e),
    }
}

/// The `n` arguments of the tall form at `k`: each expression followed by a gap, the
/// last one by a gap and `==`, folded to the right into cells.
pub open spec fn spec_tall_args(s: Seq<u8>, k: int, n: nat) -> SpecParsed<Twig>
    decreases s.len() - k, 2int, n,
{
    match spec_ream(s, k) {
        Ok((c, t)) => {
            let j = k + c;
            match spec_gap(s, j) {
                Ok((g, _)) => {
                    let m = j + g;
                    if n <= 1 {
                        if pair_at(s, m, EQUALS, EQUALS) {
                            Ok((c + g + 2, t))
                        } else {
                            fail(ErrorKind::TokenExpected, m)
                        }
                    } else {
                        proof {
                            lemma_gap(s, j);
                        }
                        match spec_tall_args(s, m, (n - 1) as nat) {
                            Ok((c2, t2)) => Ok((c + g + c2, Twig::Cell(Box::new(t), Box::new(t2)))),
                            Err(e) => Err(e),
                        }
                    }
                },
                Err(e) => Err(e),
            }
        },
        Err(e) => Err(e),
    }
}

fn glyph_at_exec(s: &[u8], i: usize, r: Rune) -> (b: bool)
    requires
        i <= s@.len(),
    ensures
        b == glyph_at(s@, i as int, r),
{
    match r.glyph() {
        Some((b0, b1)) => s.len() - i >= 2 && s[i] == b0 && s[i + 1] == b1,
        None => false,
    }
}

/// Parses an expression at `i`.
pub fn ream_at(s: &[u8], i: usize) -> (r: Parsed<Twig>)
    requires
        i <= s@.len(),
    ensures
        parsed_view(r) == spec_ream(s@, i as int),
        r is Ok ==> 1 <= r->Ok_0.0 <= s@.len() - i,
    decreases s@.len() - i, 1int, 0int,
{
    if glyph_at_exec(s, i, Rune::Brhp) {
        rune_at(s, i, Rune::Brhp)
    } else {
        ud_at(s, i)
    }
}

/// Parses an application of rune `r`, whose glyph stands at `i`.
pub fn rune_at(s: &[u8], i: usize, r: Rune) -> (res: Parsed<Twig>)
    requires
        i <= s@.len(),
        glyph_at(s@, i as int, r),
    ensures
        parsed_view(res) == spec_rune(s@, i as int, r),
        res is Ok ==> 1 <= res->Ok_0.0 <= s@.len() - i,
    decreases s@.len() - i, 0int, 0int,
{
    let len = s.len();
    let p = i + 2;
    if p < len && s[p] == OPEN_PAREN {
        match wide_args_at(s, p + 1, r.arity()) {
            Ok((c, t)) => Ok((c + 3, Twig::Cell(Box::new(Twig::Rune(r)), Box::new(t)))),
            Err(e) => Err(e),
        }
    } else {
        match gap_at(s, p) {
            Ok((g, _)) => {
                match tall_args_at(s, p + g, r.arity()) {
                    Ok((c, t)) => Ok((2 + g + c, Twig::Cell(Box::new(Twig::Rune(r)), Box::new(t)))),
                    Err(e) => Err(e),
                }
            },
            Err(e) => Err(e),
        }
    }
}

/// Parses the `n` arguments of a wide form at `k`.
pub fn wide_args_at(s: &[u8], k: usize, n: usize) -> (r: Parsed<Twig>)
    requires
        k <= s@.len(),
    ensures
        parsed_view(r) == spec_wide_args(s@, k as int, n as nat),
        r is Ok ==> 1 <= r->Ok_0.0 <= s@.len() - k,
    decreases s@.len() - k, 2int, n,
{
    let len = s.len();
    match ream_at(s, k) {
        Ok((c, t)) => {
            let j = k + c;
            if n <= 1 {
                if j < s.len() && s[j] == CLOSE_PAREN {
                    Ok((c + 1, t))
                } else {
                    Err(ParseError { kind: ErrorKind::TokenExpected, at: j })
                }
            } else if j < s.len() && s[j] == SPACE {
                match wide_args_at(s, j + 1, n - 1) {
                    Ok((c2, t2)) => Ok((c + 1 + c2, Twig::Cell(Box::new(t), Box::new(t2)))),
                    Err(e) => Err(e),
                }
            } else {
                Err(ParseError { kind: ErrorKind::TokenExpected, at: j })
            }
        },
        Err(e) => Err(e),
    }
}

/// Parses the `n` arguments of a tall form at `k`.
pub fn tall_args_at(s: &[u8], k: usize, n: usize) -> (r: Parsed<Twig>)
    requires
        k <= s@.len(),
    ensures
        parsed_view(r) == spec_tall_args(s@, k as int, n as nat),
        r is Ok ==> 1 <= r->Ok_0.0 <= s@.len() - k,
    decreases s@.len() - k, 2int, n,
{
    let len = s.len();
    match ream_at(s, k) {
        Ok((c, t)) => {
            let j = k + c;
            match gap_at(s, j) {
                Ok((g, _)) => {
                    let m = j + g;
                    if n <= 1 {
                        if s.len() - m >= 2 && s[m] == EQUALS && s[m + 1] == EQUALS {
                            Ok((c + g + 2, t))
                        } else {
                            Err(ParseError { kind: ErrorKind::TokenExpected, at: m })
                        }
                    } else {
                        match tall_args_at(s, m, n - 1) {
                            Ok((c2, t2)) => Ok((c + g + c2, Twig::Cell(Box::new(t), Box::new(t2)))),
                            Err(e) => Err(e),
                        }
                    }
                },
                Err(e) => Err(e),
            }
        },
        Err(e) => Err(e),
    }
}

/// The decimal text of any `u64` parses as a literal of that value, consuming the
/// whole text.
pub proof fn lemma_ream_reads_decimal_text(n: nat)
    requires
        n <= u64::MAX,
    ensures
        spec_ream(decimal_text(n), 0) == Ok::<(nat, Twig), ParseError>(
            (decimal_text(n).len(), literal(n as u64)),
        ),
{
    lemma_decimal_text(n);
    lemma_ud_reads_decimal_text(n);
    assert(!glyph_at(decimal_text(n), 0, Rune::Brhp));
}

/// Once `(` follows a rune's glyph the parse is committed to the wide form: its
/// result is that of the wide argument list alone, a failure included, and the tall
/// form is never tried.
pub proof fn lemma_wide_form_commits(s: Seq<u8>, i: int)
    requires
        glyph_at(s, i, Rune::Brhp),
        byte_at(s, i + 2, OPEN_PAREN),
    ensures
        match spec_wide_args(s, i + 3, 1) {
            Ok((c, t)) => spec_ream(s, i) == Ok::<(nat, Twig), ParseError>((c + 3, apply(Rune::Brhp, t))),
            Err(e) => spec_ream(s, i) == Err::<(nat, Twig), ParseError>(e),
        },
{
}

/// The wide form `|-(n)` of a numeric argument `n`.
pub open spec fn wide_numeric(n: nat) -> Seq<u8> {
    seq![BAR, HYPHEN, OPEN_PAREN] + decimal_text(n) + seq![CLOSE_PAREN]
}

/// The tall form of `|-` over a numeric argument `n`: the glyph, a newline and an
/// indent of two, `n`, a newline, and the end marker `==`.
pub open spec fn tall_numeric(n: nat) -> Seq<u8> {
    seq![BAR, HYPHEN, NEWLINE, SPACE, SPACE] + decimal_text(n) + seq![NEWLINE, EQUALS, EQUALS]
}

proof fn lemma_wide_numeric(n: nat)
    requires
        n <= u64::MAX,
    ensures
        spec_ream(wide_numeric(n), 0) == Ok::<(nat, Twig), ParseError>(
            (wide_numeric(n).len(), apply(Rune::Brhp, literal(n as u64))),
        ),
{
    let d = decimal_text(n);
    let len = d.len() as int;
    lemma_decimal_text(n);
    let w = wide_numeric(n);
    assert(w.len() == len + 4);
    assert(w[0] == BAR && w[1] == HYPHEN && w[2] == OPEN_PAREN && w[3 + len] == CLOSE_PAREN);
    assert forall|k: int| 0 <= k < len implies w[3 + k] == #[trigger] d[k] by {}
    lemma_ud_reads_decimal_text_at(w, 3, n);
    assert(!glyph_at(w, 3, Rune::Brhp));
    assert(spec_ream(w, 3) == spec_ud(w, 3));
    assert(spec_wide_args(w, 3, 1) == Ok::<(nat, Twig), ParseError>(((len + 1) as nat, literal(n as u64))));
}

proof fn lemma_tall_numeric(n: nat)
    requires
        n <= u64::MAX,
    ensures
        spec_ream(tall_numeric(n), 0) == Ok::<(nat, Twig), ParseError>(
            (tall_numeric(n).len(), apply(Rune::Brhp, literal(n as u64))),
        ),
{
    let d = decimal_text(n);
    let len = d.len() as int;
    lemma_decimal_text(n);
    let t = tall_numeric(n);
    let j = 5 + len;
    assert(t.len() == len + 8);
    assert(t[0] == BAR && t[1] == HYPHEN && t[2] == NEWLINE && t[3] == SPACE && t[4] == SPACE);
    assert(t[j] == NEWLINE && t[j + 1] == EQUALS && t[j + 2] == EQUALS);
    assert forall|k: int| 0 <= k < len implies t[5 + k] == #[trigger] d[k] by {}
    lemma_ud_reads_decimal_text_at(t, 5, n);
    assert(!glyph_at(t, 5, Rune::Brhp));
    assert(spec_ream(t, 5) == spec_ud(t, 5));
    assert(weight(t, 2, 5) == 4) by {
        assert(weight(t, 2, 2) == 0);
        assert(weight(t, 2, 3) == 2);
        assert(weight(t, 2, 4) == 3);
    }
    lemma_gap_of_run(t, 2, 5);
    assert(weight(t, j, j + 1) == 2) by {
        assert(weight(t, j, j) == 0);
    }
    lemma_gap_of_run(t, j, j + 1);
    assert(pair_at(t, j + 1, EQUALS, EQUALS));
    assert(spec_tall_args(t, 5, 1) == Ok::<(nat, Twig), ParseError>(((len + 3) as nat, literal(n as u64))));
    assert(glyph_at(t, 0, Rune::Brhp) && !byte_at(t, 2, OPEN_PAREN));
}

/// For any `u64` argument, the wide and the tall form of `|-` both parse, consuming
/// the whole input, to one and the same tree.
pub proof fn lemma_wide_tall_agree(n: nat)
    requires
        n <= u64::MAX,
    ensures
        spec_ream(wide_numeric(n), 0) == Ok::<(nat, Twig), ParseError>(
            (wide_numeric(n).len(), apply(Rune::Brhp, literal(n as u64))),
        ),
        spec_ream(tall_numeric(n), 0) == Ok::<(nat, Twig), ParseError>(
            (tall_numeric(n).len(), apply(Rune::Brhp, literal(n as u64))),
        ),
{
    lemma_wide_numeric(n);
    lemma_tall_numeric(n);
}

/// Parses a Hoon expression at the start of `input`. Returns its tree and the rest
/// of the input, which the caller may or may not expect to be empty.
pub fn ream(input: &[u8]) -> (r: Result<(Twig, &[u8]), ParseError>)
    ensures
        splits_value(input@, spec_ream(input@, 0), r),
{
    match ream_at(input, 0) {
        Ok((c, t)) => Ok((t, slice_subrange(input, c, input.len()))),
        Err(e) => Err(e),
    }
}

} // verus!
