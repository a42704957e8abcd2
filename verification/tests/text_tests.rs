//! The text-layer clients: the character stream over a `String`, the
//! character-class scanners, and the numeric-literal recognizers.

use parsec::parsec::atom::{eq, eof};
use parsec::parsec::combinator::{between, many1};
use parsec::parsec::text::{
    alpha, alphanumeric, control, digit, float, integer, newline, space, ufloat, uinteger,
    white_space, CollectChars, StringState,
};
use parsec::parsec::{Error, Monad, Parsec, State};

fn text(data: &str) -> StringState {
    StringState::new(data.to_string())
}

#[test]
fn string_state_walks_characters() {
    let mut st = text("hé");
    assert_eq!(st.next(), Some('h'));
    assert_eq!(st.next(), Some('é'));
    assert_eq!(st.next(), None);
    assert_eq!(st.pos(), 2);
}

#[test]
fn string_state_seek_is_bounds_checked() {
    let mut st = text("ab");
    assert!(st.seek_to(1));
    assert!(!st.seek_to(2));
    assert_eq!(st.pos(), 1);
}

#[test]
fn string_state_transactions_restore_position() {
    let mut st = text("abc");
    let m = st.begin();
    st.next();
    st.next();
    st.rollback(m);
    assert_eq!(st.pos(), 0);
}

#[test]
fn space_accepts_space_and_tab() {
    let mut st = text(" x");
    assert_eq!(space().parse(&mut st).unwrap(), ' ');
    let mut st2 = text("\tx");
    assert_eq!(space().parse(&mut st2).unwrap(), '\t');
    let mut st3 = text("x");
    assert!(space().parse(&mut st3).is_err());
}

#[test]
fn white_space_accepts_any_unicode_whitespace() {
    let mut st = text("\u{a0}");
    assert_eq!(white_space().parse(&mut st).unwrap(), '\u{a0}');
    let mut st2 = text("q");
    let e = white_space().parse(&mut st2).unwrap_err();
    assert_eq!(e.description(), "predicate failed");
    // the rejected token stays consumed
    assert_eq!(st2.pos(), 1);
    assert_eq!(e.pos(), 1);
}

#[test]
fn digit_accepts_numeric_characters() {
    let mut st = text("5");
    assert_eq!(digit().parse(&mut st).unwrap(), '5');
    let mut st2 = text("x");
    assert!(digit().parse(&mut st2).is_err());
    let mut st3 = text("");
    assert_eq!(digit().parse(&mut st3).unwrap_err().description(), "eof");
}

#[test]
fn alpha_accepts_alphabetic_characters() {
    let mut st = text("q");
    assert_eq!(alpha().parse(&mut st).unwrap(), 'q');
    let mut st2 = text("5");
    assert!(alpha().parse(&mut st2).is_err());
}

#[test]
fn alphanumeric_accepts_both() {
    let mut st = text("q");
    assert!(alphanumeric().parse(&mut st).is_ok());
    let mut st2 = text("5");
    assert!(alphanumeric().parse(&mut st2).is_ok());
    let mut st3 = text("-");
    assert!(alphanumeric().parse(&mut st3).is_err());
}

#[test]
fn control_accepts_control_characters() {
    let mut st = text("\u{1}");
    assert_eq!(control().parse(&mut st).unwrap(), '\u{1}');
    let mut st2 = text("a");
    assert!(control().parse(&mut st2).is_err());
}

#[test]
fn newline_recognizes_crlf_and_bare_cr() {
    let mut st = text("\r\nx");
    assert_eq!(newline().parse(&mut st).unwrap(), "\r\n");
    assert_eq!(st.pos(), 2);
    let mut st2 = text("\rx");
    assert_eq!(newline().parse(&mut st2).unwrap(), "\r");
    assert_eq!(st2.pos(), 1);
}

#[test]
fn newline_commits_to_its_first_alternative() {
    // per the ordered-choice rule the first alternative consumes the token and
    // fails, so a bare line feed is not reached by the second alternative
    let mut st = text("\n");
    assert!(newline().parse(&mut st).is_err());
}

#[test]
fn uinteger_collects_digits() {
    let mut st = text("123a");
    assert_eq!(uinteger().parse(&mut st).unwrap(), "123");
    assert_eq!(st.pos(), 3);
}

#[test]
fn uinteger_requires_a_digit() {
    let mut st = text("a1");
    let e = uinteger().parse(&mut st).unwrap_err();
    assert_eq!(e.description(), "predicate failed");
    assert_eq!(st.pos(), 1);
}

#[test]
fn bind_runs_the_continuation() {
    let mut st = text("78x");
    let p = uinteger();
    assert_eq!(p.parse(&mut st).unwrap(), "78");
    let mut st2 = text("9");
    let q = many1(digit()).bind(CollectChars);
    assert_eq!(q.parse(&mut st2).unwrap(), "9");
}

#[test]
fn integer_takes_an_optional_sign() {
    let mut st = text("-42");
    assert_eq!(integer().parse(&mut st).unwrap(), "-42");
    let mut st2 = text("7");
    assert_eq!(integer().parse(&mut st2).unwrap(), "7");
    let mut st3 = text("-");
    assert_eq!(integer().parse(&mut st3).unwrap_err().description(), "eof");
}

#[test]
fn ufloat_requires_dot_and_fraction() {
    let mut st = text("12.5");
    assert_eq!(ufloat().parse(&mut st).unwrap(), "12.5");
    assert_eq!(st.pos(), 4);
    let mut st2 = text("12");
    assert_eq!(ufloat().parse(&mut st2).unwrap_err().description(), "eof");
    let mut st3 = text("12x");
    assert_eq!(
        ufloat().parse(&mut st3).unwrap_err().description(),
        "expect equal element"
    );
}

#[test]
fn float_takes_an_optional_sign() {
    let mut st = text("-3.14");
    assert_eq!(float().parse(&mut st).unwrap(), "-3.14");
    let mut st2 = text("2.5x");
    assert_eq!(float().parse(&mut st2).unwrap(), "2.5");
}

#[test]
fn digit_sequence_between_brackets() {
    let mut st = text("(123)");
    let p = between(eq('('), uinteger(), eq(')'));
    assert_eq!(p.parse(&mut st).unwrap(), "123");
    assert_eq!(st.pos(), 5);
    assert!(eof().parse(&mut st).is_ok());
}

#[test]
fn missing_close_bracket_reports_eof_past_the_digits() {
    let mut st = text("(123");
    let p = between(eq('('), uinteger(), eq(')'));
    let e = p.parse(&mut st).unwrap_err();
    assert_eq!(e.description(), "eof");
    assert_eq!(e.pos(), 4);
}
