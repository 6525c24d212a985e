use vstd::prelude::*;

verus! {

/// What a parser expected to find where it failed.
#[derive(Clone, Copy, PartialEq, Eq, Debug, Structural)]
pub enum ErrorKind {
    /// A whitespace run of weight two or more, or a comment (a tab is never whitespace).
    WhitespaceExpected,
    /// An alphabetic character starting an identifier.
    AlphaExpected,
    /// A decimal digit starting a numeric literal.
    DigitExpected,
    /// A fixed token: a glyph, a parenthesis, a separator, an end marker.
    TokenExpected,
    /// A digit run whose value does not fit the literal's type.
    LiteralOverflow,
}

/// A parse failure: its kind and the offset in the input at which it occurred.
#[derive(Clone, Copy, PartialEq, Eq, Debug, Structural)]
pub struct ParseError {
    pub kind: ErrorKind,
    pub at: usize,
}

/// The result of a parser that starts at a position: how many bytes it consumed
/// and what it produced.
pub type Parsed<T> = Result<(usize, T), ParseError>;

/// The mathematical form of `Parsed`.
pub type SpecParsed<T> = Result<(nat, T), ParseError>;

pub open spec fn fail<T>(kind: ErrorKind, at: int) -> SpecParsed<T> {
    Err(ParseError { kind, at: at as usize })
}

pub open spec fn parsed_view<T>(r: Parsed<T>) -> SpecParsed<T> {
    match r {
        Ok((n, v)) => Ok((n as nat, v)),
        Err(e) => Err(e),
    }
}

pub const SPACE: u8 = 0x20;
pub const NEWLINE: u8 = 0x0a;
pub const CARRIAGE_RETURN: u8 = 0x0d;
pub const TAB: u8 = 0x09;
pub const COLON: u8 = 0x3a;
pub const DOT: u8 = 0x2e;
pub const HYPHEN: u8 = 0x2d;
pub const BAR: u8 = 0x7c;
pub const EQUALS: u8 = 0x3d;
pub const OPEN_PAREN: u8 = 0x28;
pub const CLOSE_PAREN: u8 = 0x29;
pub const DIGIT_ZERO: u8 = 0x30;

/// A parser that produced `m` on `s` from its start, returning the consumed part
/// and the rest, returned `r`.
pub open spec fn splits_prefix(
    s: Seq<u8>,
    m: SpecParsed<()>,
    r: Result<(&[u8], &[u8]), ParseError>,
) -> bool {
    match m {
        Ok((n, _)) => {
            &&& r is Ok
            &&& r->Ok_0.0@ == s.subrange(0, n as int)
            &&& r->Ok_0.1@ == s.subrange(n as int, s.len() as int)
        },
        Err(e) => r is Err && r->Err_0 == e,
    }
}

/// A parser that produced `m` on `s` from its start, returning its value and the
/// rest, returned `r`.
pub open spec fn splits_value<T>(s: Seq<u8>, m: SpecParsed<T>, r: Result<(T, &[u8]), ParseError>) -> bool {
    match m {
        Ok((n, v)) => {
            &&& r is Ok
            &&& r->Ok_0.0 == v
            &&& r->Ok_0.1@ == s.subrange(n as int, s.len() as int)
        },
        Err(e) => r is Err && r->Err_0 == e,
    }
}

/// `b` stands at position `i` of `s`.
pub open spec fn byte_at(s: Seq<u8>, i: int, b: u8) -> bool {
    0 <= i < s.len() && s[i] == b
}

/// The two bytes `b0`, `b1` stand at positions `i`, `i + 1` of `s`.
pub open spec fn pair_at(s: Seq<u8>, i: int, b0: u8, b1: u8) -> bool {
    byte_at(s, i, b0) && byte_at(s, i + 1, b1)
}

} // verus!
