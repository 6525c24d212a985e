use hoon::error::{ErrorKind, ParseError};
use hoon::lex::{comment, gap, ident, is_alphabetic, is_digit, is_lowercase, long_space};
use hoon::atom::ud;
use hoon::ream::ream;
use hoon::twig::{Odor, Rune, Twig};
use hoon::wing::wing;

fn lit(v: u64) -> Twig {
    Twig::Cell(Box::new(Twig::Rune(Rune::Dtzy)), Box::new(Twig::Atom(Odor::Ud, v)))
}

fn brhp(arg: Twig) -> Twig {
    Twig::Cell(Box::new(Twig::Rune(Rune::Brhp)), Box::new(arg))
}

fn err(kind: ErrorKind, at: usize) -> ParseError {
    ParseError { kind, at }
}

#[test]
fn test_parse_gap() {
    assert!(gap(&b"  "[..]).is_ok());
    assert!(gap(&b"    "[..]).is_ok());
    assert!(gap(&b"\n"[..]).is_ok());
    assert!(gap(&b"\n  "[..]).is_ok());
    assert!(gap(&b"  \n  "[..]).is_ok());
    assert!(!gap(&b" "[..]).is_ok());
}

#[test]
fn gap_rejects_any_tab() {
    assert_eq!(gap(b"\t"), Err(err(ErrorKind::WhitespaceExpected, 0)));
    assert_eq!(gap(b"  \t  "), Err(err(ErrorKind::WhitespaceExpected, 0)));
    assert_eq!(gap(b"\n\t\n"), Err(err(ErrorKind::WhitespaceExpected, 0)));
    assert_eq!(gap(b"\n  \n\t"), Err(err(ErrorKind::WhitespaceExpected, 0)));
}

#[test]
fn gap_consumes_whole_run() {
    assert_eq!(gap(b"  \n  x"), Ok((&b"  \n  "[..], &b"x"[..])));
    assert_eq!(gap(b"\r\n1"), Ok((&b"\r\n"[..], &b"1"[..])));
}

#[test]
fn gap_mixes_runs_and_comments() {
    assert_eq!(gap(b"  :: note\n  5"), Ok((&b"  :: note\n  "[..], &b"5"[..])));
    assert_eq!(gap(b":: a\n:: b\n=="), Ok((&b":: a\n:: b\n"[..], &b"=="[..])));
}

#[test]
fn long_space_weights() {
    assert_eq!(long_space(b"\n"), Ok((&b"\n"[..], &b""[..])));
    assert_eq!(long_space(b"  a"), Ok((&b"  "[..], &b"a"[..])));
    assert_eq!(long_space(b" a"), Err(err(ErrorKind::WhitespaceExpected, 0)));
    assert_eq!(long_space(b"\r\r"), Err(err(ErrorKind::WhitespaceExpected, 0)));
    assert_eq!(long_space(b"a"), Err(err(ErrorKind::WhitespaceExpected, 0)));
    assert_eq!(long_space(b""), Err(err(ErrorKind::WhitespaceExpected, 0)));
}

#[test]
fn comment_text_and_rest() {
    assert_eq!(comment(b"::hi\nrest"), Ok((&b"hi"[..], &b"rest"[..])));
    assert_eq!(comment(b"::\n"), Ok((&b""[..], &b""[..])));
    assert_eq!(comment(b"::no newline"), Err(err(ErrorKind::TokenExpected, 12)));
    assert_eq!(comment(b":x\n"), Err(err(ErrorKind::TokenExpected, 0)));
}

#[test]
fn ident_accepts_and_stops() {
    assert_eq!(ident(b"a"), Ok((&b"a"[..], &b""[..])));
    assert_eq!(ident(b"a1"), Ok((&b"a1"[..], &b""[..])));
    assert_eq!(ident(b"a-b1"), Ok((&b"a-b1"[..], &b""[..])));
    assert_eq!(ident(b"a.b"), Ok((&b"a"[..], &b".b"[..])));
    assert_eq!(ident(b"Zed x"), Ok((&b"Zed"[..], &b" x"[..])));
}

#[test]
fn ident_rejects_bad_start() {
    assert_eq!(ident(b"1a"), Err(err(ErrorKind::AlphaExpected, 0)));
    assert_eq!(ident(b"-a"), Err(err(ErrorKind::AlphaExpected, 0)));
    assert_eq!(ident(b""), Err(err(ErrorKind::AlphaExpected, 0)));
}

#[test]
fn byte_classes() {
    assert!(is_lowercase(b'a'));
    assert!(is_lowercase(b'z'));
    assert!(!is_lowercase(b'A'));
    assert!(!is_lowercase(b'{'));
    assert!(is_alphabetic(b'Q'));
    assert!(!is_alphabetic(b'1'));
    assert!(is_digit(b'9'));
    assert!(!is_digit(b'a'));
}

#[test]
fn ud_reads_values() {
    assert_eq!(ud(b"0"), Ok((lit(0), &b""[..])));
    assert_eq!(ud(b"123)"), Ok((lit(123), &b")"[..])));
    assert_eq!(ud(b"007"), Ok((lit(7), &b""[..])));
    assert_eq!(ud(b"18446744073709551615"), Ok((lit(u64::MAX), &b""[..])));
    assert_eq!(ud(b"x"), Err(err(ErrorKind::DigitExpected, 0)));
}

#[test]
fn ud_overflow_is_an_error() {
    assert_eq!(ud(b"18446744073709551616"), Err(err(ErrorKind::LiteralOverflow, 0)));
}

#[test]
fn numeric_round_trip() {
    for n in [0u64, 1, 9, 10, 42, 1000, 65535, 4294967296, u64::MAX] {
        let text = n.to_string();
        assert_eq!(ream(text.as_bytes()), Ok((lit(n), &b""[..])));
    }
}

#[test]
fn wide_and_tall_forms_agree() {
    let wide = ream(b"|-(123)");
    let tall = ream(b"|-\n  123\n==");
    assert_eq!(wide, Ok((brhp(lit(123)), &b""[..])));
    assert_eq!(tall, Ok((brhp(lit(123)), &b""[..])));
}

#[test]
fn nested_runes() {
    assert_eq!(ream(b"|-(|-(7))"), Ok((brhp(brhp(lit(7))), &b""[..])));
    assert_eq!(ream(b"|-\n  |-(7)\n==\nmore"), Ok((brhp(brhp(lit(7))), &b"\nmore"[..])));
    assert_eq!(ream(b"|-  :: note\n  5\n=="), Ok((brhp(lit(5)), &b""[..])));
}

#[test]
fn wide_form_commits() {
    assert_eq!(ream(b"|-(123"), Err(err(ErrorKind::TokenExpected, 6)));
    assert_eq!(ream(b"|-(123 "), Err(err(ErrorKind::TokenExpected, 6)));
    assert_eq!(ream(b"|-(\n  1\n=="), Err(err(ErrorKind::DigitExpected, 3)));
}

#[test]
fn tall_form_errors() {
    assert_eq!(ream(b"|-x"), Err(err(ErrorKind::WhitespaceExpected, 2)));
    assert_eq!(ream(b"|- 1\n=="), Err(err(ErrorKind::WhitespaceExpected, 2)));
    assert_eq!(ream(b"|-\n  1\n="), Err(err(ErrorKind::TokenExpected, 7)));
    assert_eq!(ream(b"|-\n  1"), Err(err(ErrorKind::WhitespaceExpected, 6)));
}

#[test]
fn ream_leaves_the_rest() {
    assert_eq!(ream(b"42 rest"), Ok((lit(42), &b" rest"[..])));
    assert_eq!(ream(b"x"), Err(err(ErrorKind::DigitExpected, 0)));
    assert_eq!(ream(b""), Err(err(ErrorKind::DigitExpected, 0)));
}

#[test]
fn rune_table() {
    assert_eq!(Rune::Brhp.glyph(), Some((b'|', b'-')));
    assert_eq!(Rune::Dtzy.glyph(), None);
    assert_eq!(Rune::Brhp.arity(), 1);
}

#[test]
fn wing_paths() {
    let abc: Vec<Vec<u8>> = vec![b"a".to_vec(), b"b".to_vec(), b"c".to_vec()];
    assert_eq!(wing(b"a.b.c"), Ok((abc, &b""[..])));
    assert_eq!(wing(b"a"), Ok((vec![b"a".to_vec()], &b""[..])));
    assert_eq!(wing(b"a.1"), Ok((vec![b"a".to_vec()], &b".1"[..])));
    assert_eq!(wing(b"foo-1.bar baz"), Ok((vec![b"foo-1".to_vec(), b"bar".to_vec()], &b" baz"[..])));
    assert_eq!(wing(b"1a"), Err(err(ErrorKind::AlphaExpected, 0)));
}
