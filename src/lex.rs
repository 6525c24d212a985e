use vstd::prelude::*;
use vstd::slice::slice_subrange;
use crate::error::{
    byte_at, fail, pair_at, parsed_view, splits_prefix, ErrorKind, ParseError, Parsed, SpecParsed,
    CARRIAGE_RETURN, COLON, HYPHEN, NEWLINE, SPACE, TAB,
};

verus! {

pub open spec fn spec_is_alphabetic(c: u8) -> bool {
    (0x41 <= c <= 0x5a) || (0x61 <= c <= 0x7a)
}

pub open spec fn spec_is_digit(c: u8) -> bool {
    0x30 <= c <= 0x39
}

pub open spec fn spec_is_space(c: u8) -> bool {
    c == SPACE || c == NEWLINE || c == CARRIAGE_RETURN
}

/// A lowercase ASCII letter.
pub fn is_lowercase(chr: u8) -> (r: bool)
    ensures
        r == (0x61 <= chr <= 0x7a),
{
    chr >= 0x61 && chr <= 0x7a
}

/// An ASCII letter.
pub fn is_alphabetic(chr: u8) -> (r: bool)
    ensures
        r == spec_is_alphabetic(chr),
{
    (chr >= 0x41 && chr <= 0x5a) || (chr >= 0x61 && chr <= 0x7a)
}

/// An ASCII decimal digit.
pub fn is_digit(chr: u8) -> (r: bool)
    ensures
        r == spec_is_digit(chr),
{
    chr >= 0x30 && chr <= 0x39
}

/// The classes of bytes whose runs the lexer scans.
#[derive(Clone, Copy, PartialEq, Eq, Debug, Structural)]
pub enum ByteClass {
    /// Space, newline, carriage return.
    Space,
    /// What may follow the first letter of an identifier: letters, digits, hyphens.
    Word,
    /// Decimal digits.
    Digit,
    /// Anything but a newline.
    Line,
}

impl ByteClass {
    pub open spec fn spec_contains(self, c: u8) -> bool {
        match self {
            ByteClass::Space => spec_is_space(c),
            ByteClass::Word => spec_is_alphabetic(c) || spec_is_digit(c) || c == HYPHEN,
            ByteClass::Digit => spec_is_digit(c),
            ByteClass::Line => c != NEWLINE,
        }
    }

    pub fn contains(&self, c: u8) -> (r: bool)
        ensures
            r == self.spec_contains(c),
    {
        match self {
            ByteClass::Space => c == SPACE || c == NEWLINE || c == CARRIAGE_RETURN,
            ByteClass::Word => is_alphabetic(c) || is_digit(c) || c == HYPHEN,
            ByteClass::Digit => is_digit(c),
            ByteClass::Line => c != NEWLINE,
        }
    }
}

/// The end of the longest run of bytes of `class` in `s` that starts at `i`.
pub open spec fn scan(s: Seq<u8>, i: int, class: ByteClass) -> int
    decreases s.len() - i,
{
    if 0 <= i < s.len() && class.spec_contains(s[i]) {
        scan(s, i + 1, class)
    } else {
        i
    }
}

pub proof fn lemma_scan(s: Seq<u8>, i: int, class: ByteClass)
    requires
        0 <= i <= s.len(),
    ensures
        i <= scan(s, i, class) <= s.len(),
        forall|k: int| i <= k < scan(s, i, class) ==> class.spec_contains(#[trigger] s[k]),
        scan(s, i, class) < s.len() ==> !class.spec_contains(s[scan(s, i, class)]),
    decreases s.len() - i,
{
    if i < s.len() && class.spec_contains(s[i]) {
        lemma_scan(s, i + 1, class);
    }
}

/// A run of `class` from `i` to `e` that cannot be extended ends where `scan` says.
pub proof fn lemma_scan_end(s: Seq<u8>, i: int, e: int, class: ByteClass)
    requires
        0 <= i <= e <= s.len(),
        forall|k: int| i <= k < e ==> class.spec_contains(#[trigger] s[k]),
        e < s.len() ==> !class.spec_contains(s[e]),
    ensures
        scan(s, i, class) == e,
    decreases e - i,
{
    if i < e {
        lemma_scan_end(s, i + 1, e, class);
    }
}

/// Finds the end of the run of `class` that starts at `i`.
pub fn scan_from(s: &[u8], i: usize, class: ByteClass) -> (e: usize)
    requires
        i <= s@.len(),
    ensures
        e == scan(s@, i as int, class),
{
    let mut e = i;
    while e < s.len() && class.contains(s[e])
        invariant
            i <= e <= s@.len(),
            forall|k: int| i <= k < e ==> class.spec_contains(#[trigger] s@[k]),
        decreases s@.len() - e,
    {
        e = e + 1;
    }
    proof {
        lemma_scan_end(s@, i as int, e as int, class);
    }
    e
}

/// The weight of one byte of a whitespace run.
pub open spec fn byte_weight(c: u8) -> nat {
    if c == NEWLINE {
        2
    } else if c == SPACE {
        1
    } else {
        0
    }
}

/// The weight of the bytes of `s` from `i` up to `e`: two for each newline, one
/// for each space.
pub open spec fn weight(s: Seq<u8>, i: int, e: int) -> nat
    decreases e - i,
{
    if e <= i {
        0
    } else {
        weight(s, i, e - 1) + byte_weight(s[e - 1])
    }
}

/// A long whitespace run at `i`: the run of spaces, newlines and carriage returns
/// there, provided a tab does not end it and its weight is at least two.
pub open spec fn spec_long_space(s: Seq<u8>, i: int) -> SpecParsed<()> {
    let e = scan(s, i, ByteClass::Space);
    if byte_at(s, e, TAB) || weight(s, i, e) < 2 {
        fail(ErrorKind::WhitespaceExpected, i)
    } else {
        Ok(((e - i) as nat, ()))
    }
}

/// A line comment at `i`: `::` and everything up to and including the next newline.
pub open spec fn spec_comment(s: Seq<u8>, i: int) -> SpecParsed<()> {
    if !pair_at(s, i, COLON, COLON) {
        fail(ErrorKind::TokenExpected, i)
    } else {
        let e = scan(s, i + 2, ByteClass::Line);
        if e >= s.len() {
            fail(ErrorKind::TokenExpected, e)
        } else {
            Ok(((e + 1 - i) as nat, ()))
        }
    }
}

/// One piece of a gap: a long whitespace run, or else a comment.
pub open spec fn spec_gap_piece(s: Seq<u8>, i: int) -> SpecParsed<()> {
    match spec_long_space(s, i) {
        Ok(r) => Ok(r),
        Err(_) => spec_comment(s, i),
    }
}

pub proof fn lemma_gap_piece(s: Seq<u8>, i: int)
    ensures
        spec_gap_piece(s, i) is Ok ==> {
            let c = spec_gap_piece(s, i)->Ok_0.0;
            0 <= i && 1 <= c && i + c <= s.len()
        },
{
    if 0 <= i <= s.len() {
        lemma_scan(s, i, ByteClass::Space);
        if pair_at(s, i, COLON, COLON) {
            lemma_scan(s, i + 2, ByteClass::Line);
        }
    }
}

/// Where a sequence of gap pieces that starts at `i` ends.
pub open spec fn gap_end(s: Seq<u8>, i: int) -> int
    decreases s.len() - i,
{
    match spec_gap_piece(s, i) {
        Ok((c, _)) => {
            proof {
                lemma_gap_piece(s, i);
            }
            gap_end(s, i + c)
        },
        Err(_) => i,
    }
}

pub proof fn lemma_gap_end(s: Seq<u8>, i: int)
    requires
        0 <= i <= s.len(),
    ensures
        i <= gap_end(s, i) <= s.len(),
    decreases s.len() - i,
{
    lemma_gap_piece(s, i);
    if let Ok((c, _)) = spec_gap_piece(s, i) {
        lemma_gap_end(s, i + c);
    }
}

/// A gap at `i`: one or more long whitespace runs and comments, in any order.
pub open spec fn spec_gap(s: Seq<u8>, i: int) -> SpecParsed<()> {
    match spec_gap_piece(s, i) {
        Ok((c, _)) => Ok(((gap_end(s, i + c) - i) as nat, ())),
        Err(_) => fail(ErrorKind::WhitespaceExpected, i),
    }
}

pub proof fn lemma_gap(s: Seq<u8>, i: int)
    ensures
        spec_gap(s, i) is Ok ==> {
            let c = spec_gap(s, i)->Ok_0.0;
            0 <= i && 1 <= c && i + c <= s.len()
        },
{
    lemma_gap_piece(s, i);
    if let Ok((c, _)) = spec_gap_piece(s, i) {
        lemma_gap_end(s, i + c);
    }
}

/// An identifier at `i`: a letter followed by letters, digits and hyphens.
pub open spec fn spec_ident(s: Seq<u8>, i: int) -> SpecParsed<()> {
    if 0 <= i < s.len() && spec_is_alphabetic(s[i]) {
        Ok(((scan(s, i + 1, ByteClass::Word) - i) as nat, ()))
    } else {
        fail(ErrorKind::AlphaExpected, i)
    }
}

pub proof fn lemma_ident(s: Seq<u8>, i: int)
    ensures
        spec_ident(s, i) is Ok ==> {
            let c = spec_ident(s, i)->Ok_0.0;
            0 <= i && 1 <= c && i + c <= s.len()
        },
{
    if 0 <= i < s.len() {
        lemma_scan(s, i + 1, ByteClass::Word);
    }
}

pub fn long_space_at(s: &[u8], i: usize) -> (r: Parsed<()>)
    requires
        i <= s@.len(),
    ensures
        parsed_view(r) == spec_long_space(s@, i as int),
        r is Ok ==> r->Ok_0.0 <= s@.len() - i,
{
    let e = scan_from(s, i, ByteClass::Space);
    if e < s.len() && s[e] == TAB {
        return Err(ParseError { kind: ErrorKind::WhitespaceExpected, at: i });
    }
    // The weight of the run so far, counted up to two.
    let mut w: usize = 0;
    let mut k = i;
    proof {
        lemma_scan(s@, i as int, ByteClass::Space);
    }
    while k < e
        invariant
            i <= k <= e <= s@.len(),
            w == if weight(s@, i as int, k as int) < 2 {
                weight(s@, i as int, k as int)
            } else {
                2
            },
        decreases e - k,
    {
        let c = s[k];
        let b: usize = if c == NEWLINE {
            2
        } else if c == SPACE {
            1
        } else {
            0
        };
        w = if w + b > 2 {
            2
        } else {
            w + b
        };
        k = k + 1;
    }
    if w < 2 {
        Err(ParseError { kind: ErrorKind::WhitespaceExpected, at: i })
    } else {
        Ok((e - i, ()))
    }
}

pub fn comment_at(s: &[u8], i: usize) -> (r: Parsed<()>)
    requires
        i <= s@.len(),
    ensures
        parsed_view(r) == spec_comment(s@, i as int),
        r is Ok ==> 3 <= r->Ok_0.0 <= s@.len() - i,
{
    if !(s.len() - i >= 2 && s[i] == COLON && s[i + 1] == COLON) {
        return Err(ParseError { kind: ErrorKind::TokenExpected, at: i });
    }
    let e = scan_from(s, i + 2, ByteClass::Line);
    proof {
        lemma_scan(s@, i + 2, ByteClass::Line);
    }
    if e >= s.len() {
        Err(ParseError { kind: ErrorKind::TokenExpected, at: e })
    } else {
        Ok((e + 1 - i, ()))
    }
}

fn gap_piece_at(s: &[u8], i: usize) -> (r: Parsed<()>)
    requires
        i <= s@.len(),
    ensures
        parsed_view(r) == spec_gap_piece(s@, i as int),
        r is Ok ==> 1 <= r->Ok_0.0 <= s@.len() - i,
{
    proof {
        lemma_gap_piece(s@, i as int);
    }
    match long_space_at(s, i) {
        Ok(r) => Ok(r),
        Err(_) => comment_at(s, i),
    }
}

pub fn gap_at(s: &[u8], i: usize) -> (r: Parsed<()>)
    requires
        i <= s@.len(),
    ensures
        parsed_view(r) == spec_gap(s@, i as int),
        r is Ok ==> 1 <= r->Ok_0.0 <= s@.len() - i,
{
    let n = s.len();
    proof {
        lemma_gap(s@, i as int);
    }
    match gap_piece_at(s, i) {
        Err(_) => Err(ParseError { kind: ErrorKind::WhitespaceExpected, at: i }),
        Ok((c, _)) => {
            let mut j = i + c;
            loop
                invariant
                    n == s@.len(),
                    i < j <= s@.len(),
                    gap_end(s@, j as int) == gap_end(s@, i + c),
                ensures
                    gap_end(s@, j as int) == j,
                decreases s@.len() - j,
            {
                match gap_piece_at(s, j) {
                    Ok((c2, _)) => {
                        j = j + c2;
                    },
                    Err(_) => {
                        break;
                    },
                }
            }
            Ok((j - i, ()))
        },
    }
}

pub fn ident_at(s: &[u8], i: usize) -> (r: Parsed<()>)
    requires
        i <= s@.len(),
    ensures
        parsed_view(r) == spec_ident(s@, i as int),
        r is Ok ==> 1 <= r->Ok_0.0 <= s@.len() - i,
{
    proof {
        lemma_ident(s@, i as int);
    }
    if i < s.len() && is_alphabetic(s[i]) {
        let e = scan_from(s, i + 1, ByteClass::Word);
        proof {
            lemma_scan(s@, i + 1, ByteClass::Word);
        }
        Ok((e - i, ()))
    } else {
        Err(ParseError { kind: ErrorKind::AlphaExpected, at: i })
    }
}

/// A run of spaces, newlines and carriage returns from `i` to `e` of weight two or
/// more, followed by the end of the buffer or by a byte that can start neither a
/// run nor a comment, is a gap that ends at `e`.
pub proof fn lemma_gap_of_run(s: Seq<u8>, i: int, e: int)
    requires
        0 <= i < e <= s.len(),
        forall|k: int| i <= k < e ==> spec_is_space(#[trigger] s[k]),
        weight(s, i, e) >= 2,
        e < s.len() ==> !spec_is_space(s[e]) && s[e] != TAB && s[e] != COLON,
    ensures
        spec_gap(s, i) == Ok::<(nat, ()), ParseError>(((e - i) as nat, ())),
{
    lemma_scan_end(s, i, e, ByteClass::Space);
    lemma_scan_end(s, e, e, ByteClass::Space);
    assert(weight(s, e, e) == 0);
    assert(spec_gap_piece(s, e) is Err);
    assert(gap_end(s, e) == e);
}

/// A buffer made only of spaces, newlines, carriage returns and tabs that holds a
/// tab is never a gap, wherever the tab stands.
pub proof fn lemma_gap_rejects_tab(s: Seq<u8>)
    requires
        forall|k: int| 0 <= k < s.len() ==> spec_is_space(#[trigger] s[k]) || s[k] == TAB,
        exists|k: int| 0 <= k < s.len() && #[trigger] s[k] == TAB,
    ensures
        spec_gap(s, 0) is Err,
{
    let k = choose|k: int| 0 <= k < s.len() && #[trigger] s[k] == TAB;
    lemma_scan(s, 0, ByteClass::Space);
    let e = scan(s, 0, ByteClass::Space);
    assert(e <= k);
    assert(byte_at(s, e, TAB));
}

/// A buffer made only of spaces, newlines and carriage returns is a gap exactly
/// when its weight is at least two, and the gap is then the whole buffer.
pub proof fn lemma_gap_whitespace_run(s: Seq<u8>)
    requires
        forall|k: int| 0 <= k < s.len() ==> spec_is_space(#[trigger] s[k]),
    ensures
        spec_gap(s, 0) is Ok <==> weight(s, 0, s.len() as int) >= 2,
        spec_gap(s, 0) is Ok ==> spec_gap(s, 0) == Ok::<(nat, ()), ParseError>((s.len(), ())),
{
    lemma_scan_end(s, 0, s.len() as int, ByteClass::Space);
    if weight(s, 0, s.len() as int) >= 2 {
        lemma_gap_of_run(s, 0, s.len() as int);
    }
}

/// An identifier never starts with a digit or a hyphen.
pub proof fn lemma_ident_rejects_digit_or_hyphen(s: Seq<u8>)
    requires
        s.len() > 0,
        spec_is_digit(s[0]) || s[0] == HYPHEN,
    ensures
        spec_ident(s, 0) == fail::<()>(ErrorKind::AlphaExpected, 0),
{
}

/// Matches a long whitespace run at the start of `input`: a newline, or at least
/// two bytes of spaces, newlines and carriage returns. Returns the run and the rest.
pub fn long_space(input: &[u8]) -> (r: Result<(&[u8], &[u8]), ParseError>)
    ensures
        splits_prefix(input@, spec_long_space(input@, 0), r),
{
    match long_space_at(input, 0) {
        Ok((c, _)) => Ok((slice_subrange(input, 0, c), slice_subrange(input, c, input.len()))),
        Err(e) => Err(e),
    }
}

/// Matches a line comment at the start of `input`. Returns its text (between the
/// `::` and the newline) and what follows the newline.
pub fn comment(input: &[u8]) -> (r: Result<(&[u8], &[u8]), ParseError>)
    ensures
        match spec_comment(input@, 0) {
            Ok((n, _)) => {
                &&& r is Ok
                &&& r->Ok_0.0@ == input@.subrange(2, n - 1)
                &&& r->Ok_0.1@ == input@.subrange(n as int, input@.len() as int)
            },
            Err(e) => r is Err && r->Err_0 == e,
        },
{
    match comment_at(input, 0) {
        Ok((c, _)) => Ok((slice_subrange(input, 2, c - 1), slice_subrange(input, c, input.len()))),
        Err(e) => Err(e),
    }
}

/// Matches a gap at the start of `input`. Returns the gap and the rest.
pub fn gap(input: &[u8]) -> (r: Result<(&[u8], &[u8]), ParseError>)
    ensures
        splits_prefix(input@, spec_gap(input@, 0), r),
{
    match gap_at(input, 0) {
        Ok((c, _)) => Ok((slice_subrange(input, 0, c), slice_subrange(input, c, input.len()))),
        Err(e) => Err(e),
    }
}

/// Matches an identifier at the start of `input`. Returns it and the rest.
pub fn ident(input: &[u8]) -> (r: Result<(&[u8], &[u8]), ParseError>)
    ensures
        splits_prefix(input@, spec_ident(input@, 0), r),
{
    match ident_at(input, 0) {
        Ok((c, _)) => Ok((slice_subrange(input, 0, c), slice_subrange(input, c, input.len()))),
        Err(e) => Err(e),
    }
}

} // verus!
